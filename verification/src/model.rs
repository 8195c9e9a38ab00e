//! Plain models of the pane and tab records that the host hands the plugin.
use vstd::prelude::*;
use crate::find::{find_first, first_such, lemma_find_first_is, lemma_find_first_none};

verus! {

/// What the plugin reads of a pane reported by the host.
#[derive(Clone, Debug, PartialEq, Eq)]
pub struct PaneInfo {
    /// Session-unique id among panes of the same kind (terminal or plugin).
    pub id: u32,
    /// Whether the pane runs a plugin rather than a terminal.
    pub is_plugin: bool,
    /// Whether the pane has focus in its layer.
    pub is_focused: bool,
    /// The pane's title as shown by the host.
    pub title: String,
}

/// What the plugin reads of a tab reported by the host.
#[derive(Clone, Debug, PartialEq, Eq)]
pub struct TabInfo {
    /// The tab's 0-indexed position.
    pub position: usize,
    /// The tab's name.
    pub name: String,
    /// Whether the user is viewing this tab.
    pub active: bool,
}

/// The panes of every tab, one entry per tab position, in the order in
/// which the host's map was walked.
#[derive(Clone, Debug, PartialEq, Eq)]
pub struct PaneManifest {
    pub panes: Vec<(usize, Vec<PaneInfo>)>,
}

/// A tracked pane: the pane record together with its parent tab and the time
/// it was last accessed.
#[derive(Clone, Debug, PartialEq, Eq)]
pub struct Pane {
    pub pane_info: PaneInfo,
    pub tab_info: TabInfo,
    pub last_accessed: u64,
}

impl PaneInfo {
    /// A field-by-field copy.
    pub fn duplicate(&self) -> (r: PaneInfo)
        ensures
            r == *self,
    {
        PaneInfo { id: self.id, is_plugin: self.is_plugin, is_focused: self.is_focused, title: self.title.clone() }
    }
}

impl TabInfo {
    /// A field-by-field copy.
    pub fn duplicate(&self) -> (r: TabInfo)
        ensures
            r == *self,
    {
        TabInfo { position: self.position, name: self.name.clone(), active: self.active }
    }
}

impl Pane {
    /// A field-by-field copy.
    pub fn duplicate(&self) -> (r: Pane)
        ensures
            r == *self,
    {
        Pane {
            pane_info: self.pane_info.duplicate(),
            tab_info: self.tab_info.duplicate(),
            last_accessed: self.last_accessed,
        }
    }
}

/// The tab the user is viewing.
pub open spec fn is_active_tab() -> spec_fn(TabInfo) -> bool {
    |t: TabInfo| t.active
}

/// The tab at position `pos`.
pub open spec fn tab_at(pos: usize) -> spec_fn(TabInfo) -> bool {
    |t: TabInfo| t.position == pos
}

/// A focused terminal pane.
pub open spec fn is_focused_terminal() -> spec_fn(PaneInfo) -> bool {
    |p: PaneInfo| p.is_focused && !p.is_plugin
}

/// A terminal pane.
pub open spec fn is_terminal() -> spec_fn(PaneInfo) -> bool {
    |p: PaneInfo| !p.is_plugin
}

/// The terminal pane with id `id`.
pub open spec fn terminal_with_id(id: u32) -> spec_fn(PaneInfo) -> bool {
    |p: PaneInfo| !p.is_plugin && p.id == id
}

/// The manifest entry of the tab at position `pos`.
pub open spec fn entry_at(pos: usize) -> spec_fn((usize, Vec<PaneInfo>)) -> bool {
    |e: (usize, Vec<PaneInfo>)| e.0 == pos
}

/// The first active tab.
pub open spec fn spec_focused_tab(tabs: Seq<TabInfo>) -> Option<TabInfo> {
    first_such(tabs, is_active_tab())
}

/// The panes that the manifest lists for the tab at `pos`.
pub open spec fn manifest_get(m: Seq<(usize, Vec<PaneInfo>)>, pos: usize) -> Option<Seq<PaneInfo>> {
    match first_such(m, entry_at(pos)) {
        Some(e) => Some(e.1@),
        None => None,
    }
}

/// The focused terminal pane of the tab at `pos`, or else its first terminal
/// pane.
pub open spec fn spec_focused_pane(pos: usize, m: Seq<(usize, Vec<PaneInfo>)>) -> Option<PaneInfo> {
    match manifest_get(m, pos) {
        None => None,
        Some(panes) => match first_such(panes, is_focused_terminal()) {
            Some(p) => Some(p),
            None => first_such(panes, is_terminal()),
        },
    }
}

/// Returns the currently active tab, if any (the first one marked active).
pub fn get_focused_tab(tab_infos: &Vec<TabInfo>) -> (r: Option<TabInfo>)
    ensures
        r == spec_focused_tab(tab_infos@),
{
    let mut i: usize = 0;
    while i < tab_infos.len()
        invariant
            i <= tab_infos.len(),
            forall|j: int| 0 <= j < i ==> !is_active_tab()(#[trigger] tab_infos@[j]),
        decreases tab_infos.len() - i,
    {
        if tab_infos[i].active {
            proof {
                lemma_find_first_is(tab_infos@, is_active_tab(), i as int);
            }
            return Some(tab_infos[i].duplicate());
        }
        i += 1;
    }
    proof {
        lemma_find_first_none(tab_infos@, is_active_tab());
    }
    None
}

/// Index of the manifest entry for the tab at `pos`.
pub fn manifest_entry_index(manifest: &PaneManifest, pos: usize) -> (r: Option<usize>)
    ensures
        r matches Some(i) ==> i < manifest.panes.len() && manifest.panes@[i as int].0 == pos,
        match r {
            Some(i) => find_first(manifest.panes@, entry_at(pos)) == Some(i as int),
            None => find_first(manifest.panes@, entry_at(pos)) is None,
        },
{
    let mut i: usize = 0;
    while i < manifest.panes.len()
        invariant
            i <= manifest.panes.len(),
            forall|j: int| 0 <= j < i ==> !entry_at(pos)(#[trigger] manifest.panes@[j]),
        decreases manifest.panes.len() - i,
    {
        if manifest.panes[i].0 == pos {
            proof {
                lemma_find_first_is(manifest.panes@, entry_at(pos), i as int);
            }
            return Some(i);
        }
        i += 1;
    }
    proof {
        lemma_find_first_none(manifest.panes@, entry_at(pos));
    }
    None
}

/// Index of the first pane in `panes` on which `is_focused && !is_plugin`
/// holds (when `focused_only`) or `!is_plugin` holds.
fn find_terminal(panes: &Vec<PaneInfo>, focused_only: bool) -> (r: Option<usize>)
    ensures
        r matches Some(i) ==> i < panes.len(),
        ({
            let p = if focused_only { is_focused_terminal() } else { is_terminal() };
            match r {
                Some(i) => find_first(panes@, p) == Some(i as int),
                None => find_first(panes@, p) is None,
            }
        }),
{
    let ghost p = if focused_only { is_focused_terminal() } else { is_terminal() };
    let mut i: usize = 0;
    while i < panes.len()
        invariant
            i <= panes.len(),
            p == (if focused_only { is_focused_terminal() } else { is_terminal() }),
            forall|j: int| 0 <= j < i ==> !p(#[trigger] panes@[j]),
        decreases panes.len() - i,
    {
        if !panes[i].is_plugin && (panes[i].is_focused || !focused_only) {
            proof {
                lemma_find_first_is(panes@, p, i as int);
            }
            return Some(i);
        }
        i += 1;
    }
    proof {
        lemma_find_first_none(panes@, p);
    }
    None
}

/// Returns the focused terminal pane in the tab at `tab_position`; when no
/// terminal pane there has focus (the plugin itself has it), the first
/// terminal pane of that tab.
pub fn get_focused_pane(tab_position: usize, pane_manifest: &PaneManifest) -> (r: Option<PaneInfo>)
    ensures
        r == spec_focused_pane(tab_position, pane_manifest.panes@),
{
    let e = match manifest_entry_index(pane_manifest, tab_position) {
        Some(e) => e,
        None => return None,
    };
    let panes = &pane_manifest.panes[e].1;
    match find_terminal(panes, true) {
        Some(i) => Some(panes[i].duplicate()),
        None => match find_terminal(panes, false) {
            Some(i) => Some(panes[i].duplicate()),
            None => None,
        },
    }
}


/// Index of the first tab at position `pos`.
pub fn tab_index_at(tab_infos: &Vec<TabInfo>, pos: usize) -> (r: Option<usize>)
    ensures
        r matches Some(i) ==> i < tab_infos.len() && tab_infos@[i as int].position == pos,
        match r {
            Some(i) => find_first(tab_infos@, tab_at(pos)) == Some(i as int),
            None => find_first(tab_infos@, tab_at(pos)) is None,
        },
{
    let mut i: usize = 0;
    while i < tab_infos.len()
        invariant
            i <= tab_infos.len(),
            forall|j: int| 0 <= j < i ==> !tab_at(pos)(#[trigger] tab_infos@[j]),
        decreases tab_infos.len() - i,
    {
        if tab_infos[i].position == pos {
            proof {
                lemma_find_first_is(tab_infos@, tab_at(pos), i as int);
            }
            return Some(i);
        }
        i += 1;
    }
    proof {
        lemma_find_first_none(tab_infos@, tab_at(pos));
    }
    None
}

/// Index of the first terminal pane with id `id`.
pub fn terminal_index_with_id(panes: &Vec<PaneInfo>, id: u32) -> (r: Option<usize>)
    ensures
        r matches Some(i) ==> i < panes.len() && !panes@[i as int].is_plugin && panes@[i as int].id == id,
        match r {
            Some(i) => find_first(panes@, terminal_with_id(id)) == Some(i as int),
            None => find_first(panes@, terminal_with_id(id)) is None,
        },
{
    let mut i: usize = 0;
    while i < panes.len()
        invariant
            i <= panes.len(),
            forall|j: int| 0 <= j < i ==> !terminal_with_id(id)(#[trigger] panes@[j]),
        decreases panes.len() - i,
    {
        if !panes[i].is_plugin && panes[i].id == id {
            proof {
                lemma_find_first_is(panes@, terminal_with_id(id), i as int);
            }
            return Some(i);
        }
        i += 1;
    }
    proof {
        lemma_find_first_none(panes@, terminal_with_id(id));
    }
    None
}

/// Whether `v` holds `x`.
pub fn contains_id(v: &Vec<u32>, x: u32) -> (r: bool)
    ensures
        r == v@.contains(x),
{
    let mut i: usize = 0;
    while i < v.len()
        invariant
            i <= v.len(),
            forall|j: int| 0 <= j < i ==> v@[j] != x,
        decreases v.len() - i,
    {
        if v[i] == x {
            assert(v@[i as int] == x);
            return true;
        }
        i += 1;
    }
    false
}

/// The ids of the panes of `panes`, in order.
pub open spec fn pane_ids(panes: Seq<Pane>) -> Seq<u32> {
    panes.map_values(|p: Pane| p.pane_info.id)
}

/// The ids of the tracked panes.
pub fn ids_of(panes: &Vec<Pane>) -> (r: Vec<u32>)
    ensures
        r@ == pane_ids(panes@),
{
    let mut r: Vec<u32> = Vec::new();
    let mut i: usize = 0;
    while i < panes.len()
        invariant
            i <= panes.len(),
            r@ == pane_ids(panes@.take(i as int)),
        decreases panes.len() - i,
    {
        r.push(panes[i].pane_info.id);
        proof {
            assert(pane_ids(panes@.take(i + 1)) =~= pane_ids(panes@.take(i as int)).push(panes@[i as int].pane_info.id));
        }
        i += 1;
    }
    assert(panes@.take(i as int) =~= panes@);
    r
}

} // verus!
