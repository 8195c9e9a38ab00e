//! The switcher: its state, the list it displays, and how it answers each
//! event from the host with a new state and the actions to perform.
use vstd::prelude::*;
use crate::find::{find_first, first_such, lemma_find_first_is, lemma_find_first_none};
use crate::fuzzy::{appears_in_order, lowered, to_lowercase, fuzzy_match};
use crate::model::{
    Pane, PaneInfo, PaneManifest, TabInfo, pane_ids, ids_of, get_focused_tab, get_focused_pane, spec_focused_tab,
    spec_focused_pane,
};
use crate::panes::{valid_panes, new_terminal_panes, get_valid_panes, collect_new_panes};
use crate::persistence::{PaneBookmark, Persistence, match_bookmarks, bookmarks_of, bookmarks_names, panes_names};
use crate::sort::{sorted_by_key, sort_by_key};
use crate::text::{pane_label, push_char, pop_char, decimal, byte_len, push_decimal, string_byte_len, build_hint_line, hints_for, hint_line};
use crate::fuzzy::{match_byte_ranges, fuzzy_match_indices};
use crate::timestamps::{TimestampEntry, TimestampMap, timestamp_for, lookup_timestamp};

verus! {

/// What the switcher reads of a session reported by the host.
#[derive(Clone, Debug, PartialEq, Eq)]
pub struct SessionInfo {
    pub name: String,
    pub is_current_session: bool,
}

/// A key press, as far as the switcher tells keys apart.
#[derive(Clone, Copy, Debug, PartialEq, Eq)]
pub enum Key {
    Char(char),
    Esc,
    Backspace,
    Enter,
    Up,
    Down,
    Other,
}

/// An event from the host, with what the host side has already read or
/// parsed.
#[derive(Debug, PartialEq, Eq)]
pub enum Event {
    /// The tabs changed.
    TabUpdate(Vec<TabInfo>),
    /// The panes changed.
    PaneUpdate(PaneManifest),
    /// The requested permissions were granted.
    PermissionGranted,
    /// The sessions changed.
    SessionUpdate(Vec<SessionInfo>),
    /// The bookmark file was read and parsed.
    BookmarksLoaded(Vec<PaneBookmark>),
    /// The access-time file was read; `None` when it did not parse.
    TimestampsLoaded(Option<TimestampMap>),
    /// A key was pressed at the given time (milliseconds since the epoch).
    Key(Key, u64),
    /// Anything else.
    Other,
}

/// Work for the host side.
#[derive(Clone, Debug, PartialEq, Eq)]
pub enum Action {
    /// Read the bookmarks of the session.
    LoadBookmarks(String),
    /// Read the access times of the session.
    LoadTimestamps(String),
    /// Write `persistence.last_saved` as the bookmarks of the session.
    SaveBookmarks(String),
    /// Hide the plugin's pane.
    HideSelf,
    /// Focus the terminal pane with this id.
    FocusTerminalPane(u32),
    /// Name the plugin's own pane.
    RenamePluginPane,
}

/// The switcher's state.
pub struct State {
    /// Index into the displayed list.
    pub selected: usize,
    /// The tracked panes.
    pub panes: Vec<Pane>,
    /// The pane the user was in before the switcher opened.
    pub focused_pane: Option<Pane>,
    pub tab_info: Option<Vec<TabInfo>>,
    pub pane_manifest: Option<PaneManifest>,
    pub session_name: Option<String>,
    pub persistence: Persistence,
    /// Order by recency, hide the focused pane, and track every pane that has
    /// an access time.
    pub recent_sort: bool,
    pub worker_timestamps: TimestampMap,
    pub timestamps_loaded: bool,
    pub search_query: String,
    pub search_mode: bool,
}

/// The state as plain values.
#[verifier::ext_equal]
pub struct StateView {
    pub selected: usize,
    pub panes: Seq<Pane>,
    pub focused_pane: Option<Pane>,
    pub tab_info: Option<Seq<TabInfo>>,
    pub pane_manifest: Option<Seq<(usize, Vec<PaneInfo>)>>,
    pub session_name: Option<String>,
    pub pending: Seq<PaneBookmark>,
    pub last_saved: Seq<PaneBookmark>,
    pub recent_sort: bool,
    pub timestamps: Seq<TimestampEntry>,
    pub timestamps_loaded: bool,
    pub search_query: Seq<char>,
    pub search_mode: bool,
}

impl View for State {
    type V = StateView;

    open spec fn view(&self) -> StateView {
        StateView {
            selected: self.selected,
            panes: self.panes@,
            focused_pane: self.focused_pane,
            tab_info: match self.tab_info {
                Some(t) => Some(t@),
                None => None,
            },
            pane_manifest: match self.pane_manifest {
                Some(m) => Some(m.panes@),
                None => None,
            },
            session_name: self.session_name,
            pending: self.persistence.pending_bookmarks@,
            last_saved: self.persistence.last_saved@,
            recent_sort: self.recent_sort,
            timestamps: self.worker_timestamps.entries@,
            timestamps_loaded: self.timestamps_loaded,
            search_query: self.search_query@,
            search_mode: self.search_mode,
        }
    }
}

/// Whether pane `p` is displayed: in recency mode the focused pane is hidden,
/// and a nonempty (lowercased) query must match the lowercased label.
pub open spec fn pane_shown(p: Pane, focused: Option<Pane>, recent: bool, query_lower: Seq<char>) -> bool {
    &&& !(recent && focused is Some && focused->0.pane_info.id == p.pane_info.id)
    &&& (query_lower.len() == 0 || appears_in_order(query_lower, lowered(pane_label(p))))
}

/// The indices of the displayed panes, in order.
pub open spec fn shown_indices(panes: Seq<Pane>, focused: Option<Pane>, recent: bool, query_lower: Seq<char>) -> Seq<usize>
    decreases panes.len(),
{
    if panes.len() == 0 {
        seq![]
    } else {
        let prev = shown_indices(panes.drop_last(), focused, recent, query_lower);
        if pane_shown(panes.last(), focused, recent, query_lower) {
            prev.push((panes.len() - 1) as usize)
        } else {
            prev
        }
    }
}

/// The indices of the panes that state `v` displays.
pub open spec fn shown(v: StateView) -> Seq<usize> {
    shown_indices(v.panes, v.focused_pane, v.recent_sort, lowered(v.search_query))
}

/// Every displayed index is a pane index, in increasing order, and there are
/// no more of them than panes.
pub proof fn lemma_shown_indices(panes: Seq<Pane>, focused: Option<Pane>, recent: bool, q: Seq<char>)
    requires
        panes.len() <= usize::MAX,
    ensures
        shown_indices(panes, focused, recent, q).len() <= panes.len(),
        forall|t: int| 0 <= t < shown_indices(panes, focused, recent, q).len()
            ==> (#[trigger] shown_indices(panes, focused, recent, q)[t]) < panes.len()
            && pane_shown(panes[shown_indices(panes, focused, recent, q)[t] as int], focused, recent, q),
        forall|s: int, t: int| 0 <= s < t < shown_indices(panes, focused, recent, q).len()
            ==> #[trigger] shown_indices(panes, focused, recent, q)[s] < #[trigger] shown_indices(panes, focused, recent, q)[t],
    decreases panes.len(),
{
    if panes.len() > 0 {
        let d = panes.drop_last();
        lemma_shown_indices(d, focused, recent, q);
        let prev = shown_indices(d, focused, recent, q);
        let cur = shown_indices(panes, focused, recent, q);
        assert(cur == if pane_shown(panes.last(), focused, recent, q) {
            prev.push((panes.len() - 1) as usize)
        } else {
            prev
        });
        assert forall|t: int| 0 <= t < prev.len() implies #[trigger] panes[prev[t] as int] == d[prev[t] as int] by {}
        assert forall|t: int| 0 <= t < cur.len() implies (#[trigger] cur[t]) < panes.len()
            && pane_shown(panes[cur[t] as int], focused, recent, q) by {
            if t < prev.len() {
                assert(cur[t] == prev[t]);
                assert(panes[prev[t] as int] == d[prev[t] as int]);
            }
        }
        assert forall|s: int, t: int| 0 <= s < t < cur.len() implies #[trigger] cur[s] < #[trigger] cur[t] by {
            if t < prev.len() {
                assert(cur[s] == prev[s] && cur[t] == prev[t]);
            } else {
                assert(cur[s] == prev[s]);
                assert(prev[s] < d.len());
            }
        }
    }
}

/// The selection after clamping to a list of `len` entries.
pub open spec fn clamp(sel: usize, len: int) -> usize {
    if len == 0 {
        0
    } else if sel >= len {
        (len - 1) as usize
    } else {
        sel
    }
}

/// `v` with its selection clamped to the displayed list.
pub open spec fn clamped(v: StateView) -> StateView {
    StateView { selected: clamp(v.selected, shown(v).len() as int), ..v }
}

/// The selection moved down one entry, wrapping around.
pub open spec fn selected_down(v: StateView) -> StateView {
    if shown(v).len() == 0 {
        v
    } else {
        StateView { selected: ((v.selected + 1) % (shown(v).len() as int)) as usize, ..v }
    }
}

/// The selection moved up one entry, wrapping around.
pub open spec fn selected_up(v: StateView) -> StateView {
    if shown(v).len() == 0 {
        v
    } else if v.selected == 0 {
        StateView { selected: (shown(v).len() - 1) as usize, ..v }
    } else {
        StateView { selected: (v.selected - 1) as usize, ..v }
    }
}

/// The index in `panes` of the selected entry.
pub open spec fn selected_index(v: StateView) -> Option<usize> {
    if v.selected < shown(v).len() {
        Some(shown(v)[v.selected as int])
    } else {
        None
    }
}

/// The access time that the tracker recorded for pane `p`, or 0.
pub open spec fn pane_time(p: Pane, entries: Seq<TimestampEntry>) -> u64 {
    timestamp_for(entries, p.pane_info.id, p.tab_info.name@, p.pane_info.title@)
}

/// The panes of `s` that have a recorded access time, carrying that time.
pub open spec fn stamped(s: Seq<Pane>, entries: Seq<TimestampEntry>) -> Seq<Pane>
    decreases s.len(),
{
    if s.len() == 0 {
        seq![]
    } else {
        let prev = stamped(s.drop_last(), entries);
        let t = pane_time(s.last(), entries);
        if t > 0 {
            prev.push(Pane { last_accessed: t, ..s.last() })
        } else {
            prev
        }
    }
}

/// Pane `p` with its access time raised to the recorded one, if later.
pub open spec fn refreshed_time(p: Pane, entries: Seq<TimestampEntry>) -> Pane {
    if pane_time(p, entries) > p.last_accessed {
        Pane { last_accessed: pane_time(p, entries), ..p }
    } else {
        p
    }
}

/// The tracked panes merged with the tracker's access times: every terminal
/// pane of the manifest not yet tracked that has a recorded time is added,
/// times are raised to the recorded ones, and the list is ordered by recency.
pub open spec fn with_worker_times(panes: Seq<Pane>, m: Seq<(usize, Vec<PaneInfo>)>, tabs: Seq<TabInfo>, entries: Seq<TimestampEntry>) -> Seq<Pane> {
    let added = panes + stamped(new_terminal_panes(m, tabs, pane_ids(panes)), entries);
    sorted_by_key(added.map_values(|p: Pane| refreshed_time(p, entries)), true)
}

/// The index `i` holds the pane with id `id`.
pub open spec fn holds_pane(panes: Seq<Pane>, id: u32) -> spec_fn(usize) -> bool {
    |i: usize| panes[i as int].pane_info.id == id
}

/// The selection moved to the displayed entry of the focused pane, if it is
/// displayed.
pub open spec fn selection_on_focused(v: StateView) -> StateView {
    match v.focused_pane {
        Some(f) => match find_first(shown(v), holds_pane(v.panes, f.pane_info.id)) {
            Some(k) => StateView { selected: k as usize, ..v },
            None => v,
        },
        None => v,
    }
}

/// Saving: with a session, the panes' bookmarks become the saved ones and
/// are written; without one nothing happens.
pub open spec fn saved(v: StateView) -> (StateView, Seq<Action>) {
    match v.session_name {
        Some(s) => (StateView { last_saved: bookmarks_of(v.panes), ..v }, seq![Action::SaveBookmarks(s)]),
        None => (v, seq![]),
    }
}

/// Saving when the panes' names differ from those last saved.
pub open spec fn saved_if_changed(v: StateView) -> (StateView, Seq<Action>) {
    if bookmarks_names(v.last_saved) != panes_names(v.panes) {
        saved(v)
    } else {
        (v, seq![])
    }
}

/// Reconciling the tracked panes with the latest tabs and manifest: closed
/// panes are dropped and moved ones refreshed, pending bookmarks restored,
/// the focused pane recorded, access times merged in recency mode, the
/// selection placed, and the list saved if it changed. Without a manifest or
/// tabs nothing changes; without a focused tab or pane the steps after the
/// restoring are skipped.
pub open spec fn panes_updated(v: StateView) -> (StateView, Seq<Action>) {
    match (v.pane_manifest, v.tab_info) {
        (Some(m), Some(tabs)) => {
            let panes1 = valid_panes(v.panes, m, tabs);
            let mb = match_bookmarks(v.pending, m, tabs, pane_ids(panes1));
            let panes2 = if mb.0.len() > 0 {
                sorted_by_key(panes1 + mb.0, v.recent_sort)
            } else {
                panes1
            };
            let v2 = StateView { panes: panes2, pending: mb.1, ..v };
            match spec_focused_tab(tabs) {
                None => (v2, seq![]),
                Some(ft) => match spec_focused_pane(ft.position, m) {
                    None => (v2, seq![]),
                    Some(fp) => {
                        let v3 = StateView {
                            focused_pane: Some(Pane { pane_info: fp, tab_info: ft, last_accessed: 0 }),
                            ..v2
                        };
                        let v4 = if v.recent_sort && v.timestamps_loaded {
                            StateView { panes: with_worker_times(v3.panes, m, tabs, v.timestamps), ..v3 }
                        } else {
                            v3
                        };
                        let v5 = if v.recent_sort {
                            StateView { selected: 0, ..v4 }
                        } else {
                            selection_on_focused(v4)
                        };
                        saved_if_changed(clamped(v5))
                    },
                },
            }
        },
        _ => (v, seq![]),
    }
}

/// Asking for the tracker's access times (when the session is known): they
/// count as not loaded until they arrive.
pub open spec fn timestamps_requested(v: StateView) -> (StateView, Seq<Action>) {
    match v.session_name {
        Some(s) => (StateView { timestamps_loaded: false, ..v }, seq![Action::LoadTimestamps(s)]),
        None => (v, seq![]),
    }
}

/// After new tabs or panes arrive: in recency mode the access times are asked
/// for again, then the panes are reconciled.
pub open spec fn after_layout_change(v: StateView) -> (StateView, Seq<Action>) {
    let (v1, a1) = if v.recent_sort && v.session_name is Some {
        timestamps_requested(v)
    } else {
        (v, seq![])
    };
    let (v2, a2) = panes_updated(v1);
    (v2, a1 + a2)
}

/// The current session.
pub open spec fn is_current_session() -> spec_fn(SessionInfo) -> bool {
    |s: SessionInfo| s.is_current_session
}

/// The first time the current session is reported, its name is kept and its
/// bookmarks (and, in recency mode, access times) are asked for.
pub open spec fn session_updated(v: StateView, infos: Seq<SessionInfo>) -> (StateView, Seq<Action>) {
    if v.session_name is Some {
        (v, seq![])
    } else {
        match first_such(infos, is_current_session()) {
            None => (v, seq![]),
            Some(si) => {
                let v1 = StateView { session_name: Some(si.name), ..v };
                let a1 = seq![Action::LoadBookmarks(si.name)];
                if v.recent_sort {
                    let (v2, a2) = timestamps_requested(v1);
                    (v2, a1 + a2)
                } else {
                    (v1, a1)
                }
            },
        }
    }
}

/// The panes after pane `i` was accessed at `now`.
pub open spec fn accessed(v: StateView, i: usize, now: u64) -> StateView {
    StateView { panes: v.panes.update(i as int, Pane { last_accessed: now, ..v.panes[i as int] }), ..v }
}

/// Jumping to the selected pane: its access time becomes `now`, the list is
/// saved, the plugin hides and the pane gets focus. Nothing happens when
/// nothing is selected.
pub open spec fn jumped(v: StateView, now: u64, clear_search: bool) -> (StateView, Seq<Action>, bool) {
    match selected_index(v) {
        None => (v, seq![], false),
        Some(i) => {
            let (v1, a1) = saved(accessed(v, i, now));
            let v2 = if clear_search {
                StateView { search_mode: false, search_query: seq![], ..v1 }
            } else {
                v1
            };
            (v2, a1 + seq![Action::HideSelf, Action::FocusTerminalPane(v.panes[i as int].pane_info.id)], false)
        },
    }
}

/// The effect of a key outside search mode.
pub open spec fn normal_key(v: StateView, key: Key, now: u64) -> (StateView, Seq<Action>, bool) {
    match key {
        Key::Char('/') => (StateView { search_mode: true, ..v }, seq![], true),
        Key::Char('A') => {
            let added = match (v.pane_manifest, v.tab_info) {
                (Some(m), Some(tabs)) => new_terminal_panes(m, tabs, pane_ids(v.panes)),
                _ => seq![],
            };
            let (v1, a1) = saved(StateView { panes: sorted_by_key(v.panes + added, v.recent_sort), ..v });
            (v1, a1.push(Action::HideSelf), true)
        },
        Key::Char('a') => match v.focused_pane {
            Some(f) if !pane_ids(v.panes).contains(f.pane_info.id) => {
                let (v1, a1) = saved(StateView {
                    panes: sorted_by_key(v.panes.push(Pane { last_accessed: now, ..f }), v.recent_sort),
                    ..v
                });
                (v1, a1.push(Action::HideSelf), true)
            },
            _ => (v, seq![Action::HideSelf], true),
        },
        Key::Char('d') => match selected_index(v) {
            Some(i) => {
                let (v1, a1) = saved(StateView { panes: v.panes.remove(i as int), ..v });
                (clamped(v1), a1, true)
            },
            None => (clamped(v), seq![], true),
        },
        Key::Char('c') | Key::Esc => (v, seq![Action::HideSelf], false),
        Key::Down | Key::Char('j') => if shown(v).len() > 0 {
            (selected_down(v), seq![], true)
        } else {
            (v, seq![], false)
        },
        Key::Up | Key::Char('k') => if shown(v).len() > 0 {
            (selected_up(v), seq![], true)
        } else {
            (v, seq![], false)
        },
        Key::Enter | Key::Char('l') => jumped(v, now, false),
        _ => (v, seq![], false),
    }
}

/// The effect of a key in search mode.
pub open spec fn search_key(v: StateView, key: Key, now: u64) -> (StateView, Seq<Action>, bool) {
    match key {
        Key::Esc => (clamped(StateView { search_mode: false, search_query: seq![], selected: 0, ..v }), seq![], true),
        Key::Backspace => {
            let q = if v.search_query.len() > 0 { v.search_query.drop_last() } else { v.search_query };
            let mode = if q.len() == 0 { false } else { v.search_mode };
            (clamped(StateView { search_query: q, search_mode: mode, selected: 0, ..v }), seq![], true)
        },
        Key::Enter => jumped(v, now, true),
        Key::Down => if shown(v).len() > 0 {
            (selected_down(v), seq![], true)
        } else {
            (v, seq![], false)
        },
        Key::Up => if shown(v).len() > 0 {
            (selected_up(v), seq![], true)
        } else {
            (v, seq![], false)
        },
        Key::Char(c) => (clamped(StateView { search_query: v.search_query.push(c), selected: 0, ..v }), seq![], true),
        _ => (v, seq![], false),
    }
}

/// The new state, the actions for the host, and whether to render, after
/// event `e` in state `v`.
pub open spec fn step(v: StateView, e: Event) -> (StateView, Seq<Action>, bool) {
    match e {
        Event::TabUpdate(tabs) => {
            let (v1, a) = after_layout_change(StateView { tab_info: Some(tabs@), ..v });
            (v1, a, true)
        },
        Event::PaneUpdate(m) => {
            let (v1, a) = after_layout_change(StateView { pane_manifest: Some(m.panes@), ..v });
            (v1, a, true)
        },
        Event::PermissionGranted => (v, seq![Action::RenamePluginPane], false),
        Event::SessionUpdate(infos) => {
            let (v1, a) = session_updated(v, infos@);
            (v1, a, false)
        },
        Event::BookmarksLoaded(bms) => {
            let (v1, a) = panes_updated(StateView { pending: bms@, last_saved: bms@, ..v });
            (v1, a, true)
        },
        Event::TimestampsLoaded(map) => {
            let v1 = match map {
                Some(m) => StateView { timestamps: m.entries@, ..v },
                None => v,
            };
            let (v2, a) = panes_updated(StateView { timestamps_loaded: true, ..v1 });
            (v2, a, true)
        },
        Event::Key(k, now) => if v.search_mode {
            search_key(v, k, now)
        } else {
            normal_key(v, k, now)
        },
        Event::Other => (v, seq![], false),
    }
}

/// One line of the pane list as drawn.
pub struct RenderLine {
    pub text: String,
    /// Drawn highlighted as the selection.
    pub selected: bool,
    /// Byte ranges of `text` to color: the characters that the search matched.
    pub highlights: Vec<(usize, usize)>,
}

/// What to draw: the title line at row 0, one line per displayed pane from
/// row 1, and the key hints on the last row.
pub struct RenderPlan {
    pub title: String,
    pub title_x: usize,
    pub lines: Vec<RenderLine>,
    pub hint: String,
    pub hint_ranges: Vec<(usize, usize)>,
    pub hint_y: usize,
}

/// The title line: the search prompt in search mode, else the pane count.
pub open spec fn title_text(v: StateView) -> Seq<char> {
    if v.search_mode {
        "/"@ + v.search_query
    } else {
        "==== "@ + decimal(shown(v).len()) + " panes ===="@
    }
}

/// Where the title starts: at the left in search mode, else centered.
pub open spec fn title_x(v: StateView, cols: usize) -> int {
    if v.search_mode {
        0
    } else if cols >= byte_len(title_text(v)) {
        (cols - byte_len(title_text(v))) / 2
    } else {
        0
    }
}

/// The byte ranges `r` are `ranges`.
pub open spec fn ranges_are(r: Seq<(usize, usize)>, ranges: Seq<(int, int)>) -> bool {
    &&& r.len() == ranges.len()
    &&& forall|t: int| 0 <= t < r.len() ==> (#[trigger] r[t]).0 as int == ranges[t].0 && r[t].1 as int == ranges[t].1
}

/// Line `t` of the pane list drawn from state `v`.
pub open spec fn line_ok(v: StateView, t: int, line: RenderLine) -> bool {
    let p = v.panes[shown(v)[t] as int];
    &&& line.text@ == pane_label(p)
    &&& line.selected == (t == v.selected)
    &&& if v.search_mode && v.search_query.len() > 0 {
        ranges_are(line.highlights@, match_byte_ranges(lowered(v.search_query), pane_label(p)))
    } else {
        line.highlights@.len() == 0
    }
}

/// `r` is what state `v` draws in a window of `rows` by `cols`.
pub open spec fn plan_ok(v: StateView, rows: usize, cols: usize, r: RenderPlan) -> bool {
    &&& r.title@ == title_text(v)
    &&& r.title_x == title_x(v, cols)
    &&& r.lines@.len() == shown(v).len()
    &&& forall|t: int| 0 <= t < r.lines@.len() ==> line_ok(v, t, #[trigger] r.lines@[t])
    &&& hint_line(hints_for(cols).0, hints_for(cols).1, (r.hint, r.hint_ranges))
    &&& r.hint_y == if rows > 0 { rows - 1 } else { 0 }
}

/// Whether a configuration value turns an option on: it must be `"true"`.
pub fn config_flag(value: Option<&String>) -> (r: bool)
    ensures
        r == (value matches Some(v) && v@ == "true"@),
{
    match value {
        Some(v) => *v == String::from_str("true"),
        None => false,
    }
}

/// Adds the untracked terminal panes that have a recorded access time, raises
/// access times to the recorded ones, and orders the list by recency.
fn merge_worker_timestamps(panes: &mut Vec<Pane>, timestamps: &TimestampMap, pane_manifest: &PaneManifest, tab_info: &Vec<TabInfo>)
    ensures
        final(panes)@ == with_worker_times(old(panes)@, pane_manifest.panes@, tab_info@, timestamps.entries@),
{
    let ghost entries = timestamps.entries@;
    let current_ids = ids_of(panes);
    let candidates = collect_new_panes(pane_manifest, tab_info, &current_ids);
    let mut added: Vec<Pane> = Vec::new();
    let mut i: usize = 0;
    while i < candidates.len()
        invariant
            i <= candidates.len(),
            entries == timestamps.entries@,
            added@ == stamped(candidates@.take(i as int), entries),
        decreases candidates.len() - i,
    {
        assert(candidates@.take(i + 1).drop_last() =~= candidates@.take(i as int));
        let c = &candidates[i];
        let ts = lookup_timestamp(timestamps, c.pane_info.id, &c.tab_info.name, &c.pane_info.title);
        if ts > 0 {
            added.push(Pane { pane_info: c.pane_info.duplicate(), tab_info: c.tab_info.duplicate(), last_accessed: ts });
        }
        i += 1;
    }
    assert(candidates@.take(i as int) =~= candidates@);
    let ghost all = panes@ + added@;
    panes.append(&mut added);
    let mut refreshed: Vec<Pane> = Vec::new();
    let mut j: usize = 0;
    while j < panes.len()
        invariant
            j <= panes.len(),
            panes@ == all,
            entries == timestamps.entries@,
            refreshed@ == all.take(j as int).map_values(|p: Pane| refreshed_time(p, entries)),
        decreases panes.len() - j,
    {
        let p = &panes[j];
        let ts = lookup_timestamp(timestamps, p.pane_info.id, &p.tab_info.name, &p.pane_info.title);
        if ts > p.last_accessed {
            refreshed.push(Pane { pane_info: p.pane_info.duplicate(), tab_info: p.tab_info.duplicate(), last_accessed: ts });
        } else {
            refreshed.push(p.duplicate());
        }
        assert(refreshed@ =~= all.take(j + 1).map_values(|p: Pane| refreshed_time(p, entries)));
        j += 1;
    }
    assert(all.take(j as int) =~= all);
    sort_by_key(&mut refreshed, true);
    *panes = refreshed;
}

impl State {
    /// Orders the panes by recency in recency mode, else by tab position.
    pub fn sort_panes(&mut self)
        ensures
            final(self)@ == (StateView { panes: sorted_by_key(old(self)@.panes, old(self)@.recent_sort), ..old(self)@ }),
            final(self).selected == old(self).selected,
    {
        sort_by_key(&mut self.panes, self.recent_sort);
    }

    /// Saves the panes as the session's bookmarks (when the session is known).
    pub fn save(&mut self, actions: &mut Vec<Action>)
        ensures
            final(self)@ == saved(old(self)@).0,
            final(actions)@ == old(actions)@ + saved(old(self)@).1,
            final(self).selected == old(self).selected,
    {
        if let Some(session) = &self.session_name {
            let _ = self.persistence.record_saved(&self.panes);
            actions.push(Action::SaveBookmarks(session.clone()));
        }
    }

    /// Places the selection on the focused pane's entry, if displayed.
    fn select_focused(&mut self)
        requires
            old(self).wf(),
        ensures
            final(self)@ == selection_on_focused(old(self)@),
            final(self).wf(),
    {
        if let Some(focused) = &self.focused_pane {
            let display = self.display_indices();
            let id = focused.pane_info.id;
            let ghost pred = holds_pane(self.panes@, id);
            let _n = self.panes.len();
            proof {
                lemma_shown_indices(self.panes@, self.focused_pane, self.recent_sort, lowered(self.search_query@));
            }
            let mut k: usize = 0;
            while k < display.len()
                invariant
                    k <= display.len(),
                    *self == *old(self),
                    old(self).wf(),
                    old(self).focused_pane matches Some(f) && f.pane_info.id == id,
                    display@ == shown(self@),
                    pred == holds_pane(self.panes@, id),
                    forall|t: int| 0 <= t < display@.len() ==> #[trigger] display@[t] < self.panes@.len(),
                    forall|t: int| 0 <= t < k ==> !pred(#[trigger] display@[t]),
                decreases display.len() - k,
            {
                if self.panes[display[k]].pane_info.id == id {
                    proof {
                        lemma_find_first_is(display@, pred, k as int);
                    }
                    self.selected = k;
                    return;
                }
                k += 1;
            }
            proof {
                lemma_find_first_none(display@, pred);
            }
        }
    }

    /// Reconciles the tracked panes with the latest manifest and tabs and
    /// records the focused pane. Called on every tab and pane update.
    pub fn update_panes(&mut self, actions: &mut Vec<Action>)
        requires
            old(self).wf(),
        ensures
            final(self)@ == panes_updated(old(self)@).0,
            final(actions)@ == old(actions)@ + panes_updated(old(self)@).1,
            final(self).wf(),
    {
        let pane_manifest = match &self.pane_manifest {
            Some(m) => m,
            None => return,
        };
        let tab_info = match &self.tab_info {
            Some(t) => t,
            None => return,
        };
        self.panes = get_valid_panes(&self.panes, pane_manifest, tab_info);
        let mut new_panes = self.persistence.match_pending_bookmarks(&self.panes, pane_manifest, tab_info);
        if new_panes.len() > 0 {
            self.panes.append(&mut new_panes);
            sort_by_key(&mut self.panes, self.recent_sort);
        }
        let focused_tab = match get_focused_tab(tab_info) {
            Some(t) => t,
            None => return,
        };
        let focused_pane_info = match get_focused_pane(focused_tab.position, pane_manifest) {
            Some(p) => p,
            None => return,
        };
        self.focused_pane = Some(Pane { pane_info: focused_pane_info, tab_info: focused_tab, last_accessed: 0 });
        if self.recent_sort && self.timestamps_loaded {
            merge_worker_timestamps(&mut self.panes, &self.worker_timestamps, pane_manifest, tab_info);
        }
        if self.recent_sort {
            self.selected = 0;
        } else {
            self.select_focused();
        }
        self.clamp_selected();
        if self.persistence.has_changed(&self.panes) {
            self.save(actions);
        }
    }

    /// Asks for the tracker's access times of the session, if known.
    pub fn load_worker_timestamps(&mut self, actions: &mut Vec<Action>)
        ensures
            final(self)@ == timestamps_requested(old(self)@).0,
            final(actions)@ == old(actions)@ + timestamps_requested(old(self)@).1,
            final(self).selected == old(self).selected,
    {
        if let Some(session) = &self.session_name {
            self.timestamps_loaded = false;
            actions.push(Action::LoadTimestamps(session.clone()));
        }
    }

    /// New tabs or panes were stored: refresh access times in recency mode
    /// and reconcile.
    fn on_layout_change(&mut self, actions: &mut Vec<Action>)
        requires
            old(self).wf(),
        ensures
            final(self)@ == after_layout_change(old(self)@).0,
            final(actions)@ == old(actions)@ + after_layout_change(old(self)@).1,
            final(self).wf(),
    {
        if self.recent_sort && self.session_name.is_some() {
            self.load_worker_timestamps(actions);
        }
        self.update_panes(actions);
    }

    /// The first report of the current session: keep its name and ask for
    /// its files.
    fn on_session_update(&mut self, infos: Vec<SessionInfo>, actions: &mut Vec<Action>)
        requires
            old(self).wf(),
        ensures
            final(self)@ == session_updated(old(self)@, infos@).0,
            final(actions)@ == old(actions)@ + session_updated(old(self)@, infos@).1,
            final(self).wf(),
    {
        if self.session_name.is_some() {
            return;
        }
        let ghost pred = is_current_session();
        let mut i: usize = 0;
        while i < infos.len()
            invariant
                i <= infos.len(),
                *self == *old(self),
                actions@ == old(actions)@,
                old(self).session_name is None,
                old(self).wf(),
                pred == is_current_session(),
                forall|j: int| 0 <= j < i ==> !pred(#[trigger] infos@[j]),
            decreases infos.len() - i,
        {
            if infos[i].is_current_session {
                proof {
                    lemma_find_first_is(infos@, pred, i as int);
                }
                let name = infos[i].name.clone();
                actions.push(Action::LoadBookmarks(infos[i].name.clone()));
                self.session_name = Some(name);
                if self.recent_sort {
                    self.load_worker_timestamps(actions);
                }
                return;
            }
            i += 1;
        }
        proof {
            lemma_find_first_none(infos@, pred);
        }
    }

    /// Jumps to the selected pane (see `jumped`).
    fn jump(&mut self, now: u64, clear_search: bool, actions: &mut Vec<Action>) -> (render: bool)
        requires
            old(self).wf(),
        ensures
            final(self)@ == jumped(old(self)@, now, clear_search).0,
            final(actions)@ == old(actions)@ + jumped(old(self)@, now, clear_search).1,
            render == jumped(old(self)@, now, clear_search).2,
            final(self).wf(),
    {
        let ghost a0 = actions@;
        if let Some(idx) = self.selected_pane_index() {
            let mut p = self.panes[idx].duplicate();
            p.last_accessed = now;
            let pane_id = p.pane_info.id;
            self.panes.set(idx, p);
            self.save(actions);
            if clear_search {
                self.search_mode = false;
                self.search_query = String::new();
            }
            let ghost a1 = actions@;
            actions.push(Action::HideSelf);
            actions.push(Action::FocusTerminalPane(pane_id));
            assert(actions@ =~= a1 + seq![Action::HideSelf, Action::FocusTerminalPane(pane_id)]);
            false
        } else {
            assert(actions@ =~= a0 + Seq::<Action>::empty());
            false
        }
    }

    /// Handles a key outside search mode (see `normal_key`).
    fn on_normal_key(&mut self, key: Key, now: u64, actions: &mut Vec<Action>) -> (render: bool)
        requires
            old(self).wf(),
        ensures
            final(self)@ == normal_key(old(self)@, key, now).0,
            final(actions)@ == old(actions)@ + normal_key(old(self)@, key, now).1,
            render == normal_key(old(self)@, key, now).2,
            final(self).wf(),
    {
        let ghost a0 = actions@;
        match key {
            Key::Char('/') => {
                self.search_mode = true;
                assert(actions@ =~= a0 + Seq::<Action>::empty());
                true
            },
            Key::Char('A') => {
                let current_ids = ids_of(&self.panes);
                if let Some(pane_manifest) = &self.pane_manifest {
                    if let Some(tab_info) = &self.tab_info {
                        let mut added = collect_new_panes(pane_manifest, tab_info, &current_ids);
                        self.panes.append(&mut added);
                    }
                }
                proof {
                    assert(self.panes@ =~= old(self).panes@ + match (old(self)@.pane_manifest, old(self)@.tab_info) {
                        (Some(m), Some(tabs)) => new_terminal_panes(m, tabs, pane_ids(old(self)@.panes)),
                        _ => seq![],
                    });
                }
                self.sort_panes();
                self.save(actions);
                actions.push(Action::HideSelf);
                true
            },
            Key::Char('a') => {
                if let Some(pane) = &self.focused_pane {
                    let current_ids = ids_of(&self.panes);
                    if !crate::model::contains_id(&current_ids, pane.pane_info.id) {
                        let mut new_pane = pane.duplicate();
                        new_pane.last_accessed = now;
                        self.panes.push(new_pane);
                        self.sort_panes();
                        self.save(actions);
                    }
                }
                actions.push(Action::HideSelf);
                true
            },
            Key::Char('d') => {
                if let Some(idx) = self.selected_pane_index() {
                    self.panes.remove(idx);
                    self.save(actions);
                } else {
                    assert(actions@ =~= a0 + Seq::<Action>::empty());
                }
                self.clamp_selected();
                true
            },
            Key::Char('c') | Key::Esc => {
                actions.push(Action::HideSelf);
                assert(actions@ =~= a0 + seq![Action::HideSelf]);
                false
            },
            Key::Down | Key::Char('j') => {
                assert(actions@ =~= a0 + Seq::<Action>::empty());
                if self.display_len() > 0 {
                    self.select_down();
                    true
                } else {
                    false
                }
            },
            Key::Up | Key::Char('k') => {
                assert(actions@ =~= a0 + Seq::<Action>::empty());
                if self.display_len() > 0 {
                    self.select_up();
                    true
                } else {
                    false
                }
            },
            Key::Enter | Key::Char('l') => self.jump(now, false, actions),
            _ => {
                assert(actions@ =~= a0 + Seq::<Action>::empty());
                false
            },
        }
    }

    /// Handles a key in search mode (see `search_key`).
    fn on_search_key(&mut self, key: Key, now: u64, actions: &mut Vec<Action>) -> (render: bool)
        requires
            old(self).wf(),
        ensures
            final(self)@ == search_key(old(self)@, key, now).0,
            final(actions)@ == old(actions)@ + search_key(old(self)@, key, now).1,
            render == search_key(old(self)@, key, now).2,
            final(self).wf(),
    {
        let ghost a0 = actions@;
        match key {
            Key::Esc => {
                self.search_mode = false;
                self.search_query = String::new();
                self.selected = 0;
                self.clamp_selected();
                assert(actions@ =~= a0 + Seq::<Action>::empty());
                true
            },
            Key::Backspace => {
                let _ = pop_char(&mut self.search_query);
                if self.search_query.as_str().is_empty() {
                    self.search_mode = false;
                }
                self.selected = 0;
                self.clamp_selected();
                assert(actions@ =~= a0 + Seq::<Action>::empty());
                true
            },
            Key::Enter => self.jump(now, true, actions),
            Key::Down => {
                assert(actions@ =~= a0 + Seq::<Action>::empty());
                if self.display_len() > 0 {
                    self.select_down();
                    true
                } else {
                    false
                }
            },
            Key::Up => {
                assert(actions@ =~= a0 + Seq::<Action>::empty());
                if self.display_len() > 0 {
                    self.select_up();
                    true
                } else {
                    false
                }
            },
            Key::Char(c) => {
                push_char(&mut self.search_query, c);
                self.selected = 0;
                self.clamp_selected();
                assert(actions@ =~= a0 + Seq::<Action>::empty());
                true
            },
            _ => {
                assert(actions@ =~= a0 + Seq::<Action>::empty());
                false
            },
        }
    }

    /// Handles an event from the host: updates the state, appends the actions
    /// for the host side to `actions`, and returns whether to render.
    pub fn handle_event(&mut self, event: Event, actions: &mut Vec<Action>) -> (render: bool)
        requires
            old(self).wf(),
        ensures
            final(self)@ == step(old(self)@, event).0,
            final(actions)@ == old(actions)@ + step(old(self)@, event).1,
            render == step(old(self)@, event).2,
            final(self).wf(),
    {
        let ghost a0 = actions@;
        match event {
            Event::TabUpdate(tab_info) => {
                self.tab_info = Some(tab_info);
                self.on_layout_change(actions);
                true
            },
            Event::PaneUpdate(pane_manifest) => {
                self.pane_manifest = Some(pane_manifest);
                self.on_layout_change(actions);
                true
            },
            Event::PermissionGranted => {
                actions.push(Action::RenamePluginPane);
                assert(actions@ =~= a0 + seq![Action::RenamePluginPane]);
                false
            },
            Event::SessionUpdate(infos) => {
                self.on_session_update(infos, actions);
                false
            },
            Event::BookmarksLoaded(bookmarks) => {
                self.persistence.on_loaded(bookmarks);
                self.update_panes(actions);
                true
            },
            Event::TimestampsLoaded(map) => {
                if let Some(map) = map {
                    self.worker_timestamps = map;
                }
                self.timestamps_loaded = true;
                self.update_panes(actions);
                true
            },
            Event::Key(key, now) => {
                if self.search_mode {
                    self.on_search_key(key, now, actions)
                } else {
                    self.on_normal_key(key, now, actions)
                }
            },
            Event::Other => {
                assert(actions@ =~= a0 + Seq::<Action>::empty());
                false
            },
        }
    }

    /// What to draw in a window of `rows` by `cols`.
    pub fn render(&self, rows: usize, cols: usize) -> (r: RenderPlan)
        ensures
            plan_ok(self@, rows, cols, r),
    {
        let display = self.display_indices();
        let _n = self.panes.len();
        proof {
            lemma_shown_indices(self.panes@, self.focused_pane, self.recent_sort, lowered(self.search_query@));
        }
        let (title, title_x) = if self.search_mode {
            let mut t = String::from_str("/");
            t.append(self.search_query.as_str());
            (t, 0)
        } else {
            let mut t = String::from_str("==== ");
            push_decimal(&mut t, display.len() as u64);
            t.append(" panes ====");
            let w = string_byte_len(&t);
            let x = if cols >= w { (cols - w) / 2 } else { 0 };
            (t, x)
        };
        let mut lines: Vec<RenderLine> = Vec::new();
        let mut k: usize = 0;
        while k < display.len()
            invariant
                k <= display.len(),
                display@ == shown(self@),
                forall|t: int| 0 <= t < display@.len() ==> #[trigger] display@[t] < self.panes@.len(),
                lines@.len() == k,
                forall|t: int| 0 <= t < k ==> line_ok(self@, t, #[trigger] lines@[t]),
            decreases display.len() - k,
        {
            let pane = &self.panes[display[k]];
            let text = pane.label();
            let highlights = if self.search_mode && !self.search_query.as_str().is_empty() {
                fuzzy_match_indices(self.search_query.as_str(), text.as_str())
            } else {
                Vec::new()
            };
            lines.push(RenderLine { text, selected: k == self.selected, highlights });
            k += 1;
        }
        let (hint, hint_ranges) = build_hint_line(cols);
        let hint_y = if rows > 0 { rows - 1 } else { 0 };
        RenderPlan { title, title_x, lines, hint, hint_ranges, hint_y }
    }

    /// The state is consistent: the selection can move down without overflow.
    pub open spec fn wf(&self) -> bool {
        self.selected < usize::MAX
    }

    /// A fresh switcher.
    pub fn new(recent_sort: bool) -> (r: State)
        ensures
            r.wf(),
            r@.selected == 0,
            r@.panes.len() == 0,
            r@.focused_pane is None,
            r@.tab_info is None,
            r@.pane_manifest is None,
            r@.session_name is None,
            r@.pending.len() == 0,
            r@.last_saved.len() == 0,
            r@.recent_sort == recent_sort,
            r@.timestamps.len() == 0,
            !r@.timestamps_loaded,
            r@.search_query.len() == 0,
            !r@.search_mode,
    {
        State {
            selected: 0,
            panes: Vec::new(),
            focused_pane: None,
            tab_info: None,
            pane_manifest: None,
            session_name: None,
            persistence: Persistence::new(),
            recent_sort,
            worker_timestamps: TimestampMap::new(),
            timestamps_loaded: false,
            search_query: String::new(),
            search_mode: false,
        }
    }

    /// Returns the indices into `panes` that are displayed.
    pub fn display_indices(&self) -> (r: Vec<usize>)
        ensures
            r@ == shown(self@),
            (self.search_query@.len() == 0) == (lowered(self.search_query@).len() == 0),
    {
        let query = to_lowercase(self.search_query.as_str());
        let mut out: Vec<usize> = Vec::new();
        let mut i: usize = 0;
        while i < self.panes.len()
            invariant
                i <= self.panes.len(),
                query@ == lowered(self.search_query@),
                out@ == shown_indices(self.panes@.take(i as int), self.focused_pane, self.recent_sort, query@),
            decreases self.panes.len() - i,
        {
            let p = &self.panes[i];
            let mut keep = true;
            if self.recent_sort {
                if let Some(f) = &self.focused_pane {
                    if f.pane_info.id == p.pane_info.id {
                        keep = false;
                    }
                }
            }
            if keep && !query.as_str().is_empty() {
                let label = p.label();
                let haystack = to_lowercase(label.as_str());
                if !fuzzy_match(query.as_str(), haystack.as_str()) {
                    keep = false;
                }
            }
            proof {
                assert(self.panes@.take(i + 1).drop_last() =~= self.panes@.take(i as int));
                assert(self.panes@.take(i + 1).last() == *p);
            }
            if keep {
                out.push(i);
            }
            i += 1;
        }
        assert(self.panes@.take(i as int) =~= self.panes@);
        out
    }

    /// The number of displayed panes.
    pub fn display_len(&self) -> (r: usize)
        ensures
            r == shown(self@).len(),
            (self.search_query@.len() == 0) == (lowered(self.search_query@).len() == 0),
    {
        self.display_indices().len()
    }

    /// Keeps the selection inside the displayed list (0 when it is empty).
    pub fn clamp_selected(&mut self)
        ensures
            final(self)@ == clamped(old(self)@),
            final(self).wf(),
    {
        let len = self.display_len();
        if len == 0 {
            self.selected = 0;
        } else if self.selected >= len {
            self.selected = len - 1;
        }
    }

    /// Moves the selection down, wrapping to the top.
    pub fn select_down(&mut self)
        requires
            old(self).wf(),
        ensures
            final(self)@ == selected_down(old(self)@),
            final(self).wf(),
    {
        let len = self.display_len();
        if len == 0 {
            return;
        }
        self.selected = (self.selected + 1) % len;
    }

    /// Moves the selection up, wrapping to the bottom.
    pub fn select_up(&mut self)
        requires
            old(self).wf(),
        ensures
            final(self)@ == selected_up(old(self)@),
            final(self).wf(),
    {
        let len = self.display_len();
        if len == 0 {
            return;
        }
        if self.selected == 0 {
            self.selected = len - 1;
            return;
        }
        self.selected -= 1;
    }

    /// Maps the selected entry of the displayed list to its index in `panes`.
    pub fn selected_pane_index(&self) -> (r: Option<usize>)
        ensures
            r == selected_index(self@),
            r matches Some(i) ==> i < self.panes.len(),
    {
        let display = self.display_indices();
        let _n = self.panes.len();
        proof {
            lemma_shown_indices(self.panes@, self.focused_pane, self.recent_sort, lowered(self.search_query@));
        }
        if self.selected < display.len() {
            Some(display[self.selected])
        } else {
            None
        }
    }
}

} // verus!
