//! Bookmarks that survive a session restart: each tracked pane is saved as
//! its tab name and pane title, and restored by matching those names against
//! the live panes.
use vstd::prelude::*;
use crate::find::first_such;
use crate::model::{
    Pane, PaneInfo, PaneManifest, TabInfo, manifest_get, pane_ids, ids_of, contains_id,
    manifest_entry_index,
};
use crate::find::{find_first, lemma_find_first, lemma_find_first_is, lemma_find_first_none};
use crate::unique::manifest_ids_unique;

verus! {

/// A saved pane: the name of its tab and its title.
#[derive(Clone, Debug, PartialEq, Eq)]
pub struct PaneBookmark {
    pub tab_name: String,
    pub pane_title: String,
}

impl PaneBookmark {
    /// A field-by-field copy.
    pub fn duplicate(&self) -> (r: PaneBookmark)
        ensures
            r == *self,
    {
        PaneBookmark { tab_name: self.tab_name.clone(), pane_title: self.pane_title.clone() }
    }
}

/// The names that identify a bookmark.
pub open spec fn bookmark_names(b: PaneBookmark) -> (Seq<char>, Seq<char>) {
    (b.tab_name@, b.pane_title@)
}

/// The names of a list of bookmarks.
pub open spec fn bookmarks_names(bs: Seq<PaneBookmark>) -> Seq<(Seq<char>, Seq<char>)> {
    bs.map_values(|b: PaneBookmark| bookmark_names(b))
}

/// The names under which a list of panes is saved.
pub open spec fn panes_names(panes: Seq<Pane>) -> Seq<(Seq<char>, Seq<char>)> {
    panes.map_values(|p: Pane| (p.tab_info.name@, p.pane_info.title@))
}

/// The bookmarks under which a list of panes is saved.
pub open spec fn bookmarks_of(panes: Seq<Pane>) -> Seq<PaneBookmark> {
    panes.map_values(|p: Pane| PaneBookmark { tab_name: p.tab_info.name, pane_title: p.pane_info.title })
}

/// The saving side of the plugin: bookmarks loaded from disk and not yet
/// matched to a live pane, and the bookmarks last written.
#[derive(Clone, Debug, PartialEq, Eq, Default)]
pub struct Persistence {
    pub pending_bookmarks: Vec<PaneBookmark>,
    pub last_saved: Vec<PaneBookmark>,
}

/// The tab named `name`.
pub open spec fn tab_named(name: Seq<char>) -> spec_fn(TabInfo) -> bool {
    |t: TabInfo| t.name@ == name
}

/// A terminal pane titled `title` whose id is not in `taken`.
pub open spec fn free_terminal_titled(title: Seq<char>, taken: Seq<u32>) -> spec_fn(PaneInfo) -> bool {
    |p: PaneInfo| !p.is_plugin && p.pane_title_is(title) && !taken.contains(p.id)
}

impl PaneInfo {
    /// The pane's title is `title`.
    pub open spec fn pane_title_is(self, title: Seq<char>) -> bool {
        self.title@ == title
    }
}

/// The live pane that bookmark `b` restores: in the first tab named like the
/// bookmark, the first terminal pane titled like it that is not already taken.
pub open spec fn bookmark_match(b: PaneBookmark, m: Seq<(usize, Vec<PaneInfo>)>, tabs: Seq<TabInfo>, taken: Seq<u32>) -> Option<Pane> {
    match first_such(tabs, tab_named(b.tab_name@)) {
        None => None,
        Some(t) => match manifest_get(m, t.position) {
            None => None,
            Some(ps) => match first_such(ps, free_terminal_titled(b.pane_title@, taken)) {
                Some(p) => Some(Pane { pane_info: p, tab_info: t, last_accessed: 0 }),
                None => None,
            },
        },
    }
}

/// Matches the bookmarks in order: the panes restored, and the bookmarks
/// left pending. A pane restored by one bookmark is taken for the next ones.
pub open spec fn match_bookmarks(pending: Seq<PaneBookmark>, m: Seq<(usize, Vec<PaneInfo>)>, tabs: Seq<TabInfo>, taken: Seq<u32>) -> (Seq<Pane>, Seq<PaneBookmark>)
    decreases pending.len(),
{
    if pending.len() == 0 {
        (seq![], seq![])
    } else {
        let prev = match_bookmarks(pending.drop_last(), m, tabs, taken);
        match bookmark_match(pending.last(), m, tabs, taken + pane_ids(prev.0)) {
            Some(p) => (prev.0.push(p), prev.1),
            None => (prev.0, prev.1.push(pending.last())),
        }
    }
}

/// No two tabs share a name.
pub open spec fn tab_names_distinct(tabs: Seq<TabInfo>) -> bool {
    forall|a: int, b: int| 0 <= a < tabs.len() && 0 <= b < tabs.len() && a != b
        ==> (#[trigger] tabs[a]).name@ != (#[trigger] tabs[b]).name@
}

/// Pane `p` is still open: a terminal pane whose tab is in `tabs` and which
/// the layout lists under that tab's position.
pub open spec fn still_open(p: Pane, m: Seq<(usize, Vec<PaneInfo>)>, tabs: Seq<TabInfo>) -> bool {
    &&& !p.pane_info.is_plugin
    &&& tabs.contains(p.tab_info)
    &&& manifest_get(m, p.tab_info.position) matches Some(ps) && ps.contains(p.pane_info)
}

/// The first tab named like an open tab is that tab.
proof fn lemma_tab_found(tabs: Seq<TabInfo>, t: TabInfo)
    requires
        tab_names_distinct(tabs),
        tabs.contains(t),
    ensures
        first_such(tabs, tab_named(t.name@)) == Some(t),
{
    let a = choose|a: int| 0 <= a < tabs.len() && tabs[a] == t;
    lemma_find_first(tabs, tab_named(t.name@));
    match find_first(tabs, tab_named(t.name@)) {
        Some(k) => {
            if k != a {
                assert(tabs[k].name@ != tabs[a].name@);
            }
        },
        None => {
            assert(!tab_named(t.name@)(tabs[a]));
        },
    }
}

/// A terminal pane listed under two tab positions is one pane listed under
/// one position.
proof fn lemma_listed_once(m: Seq<(usize, Vec<PaneInfo>)>, pos1: usize, q1: PaneInfo, pos2: usize, q2: PaneInfo)
    requires
        manifest_ids_unique(m),
        manifest_get(m, pos1) matches Some(ps) && ps.contains(q1),
        manifest_get(m, pos2) matches Some(ps) && ps.contains(q2),
        !q1.is_plugin,
        !q2.is_plugin,
        q1.id == q2.id,
    ensures
        pos1 == pos2,
        q1 == q2,
{
    lemma_find_first(m, crate::model::entry_at(pos1));
    lemma_find_first(m, crate::model::entry_at(pos2));
    let e1 = find_first(m, crate::model::entry_at(pos1))->0;
    let e2 = find_first(m, crate::model::entry_at(pos2))->0;
    let i1 = choose|i: int| 0 <= i < m[e1].1@.len() && m[e1].1@[i] == q1;
    let i2 = choose|i: int| 0 <= i < m[e2].1@.len() && m[e2].1@[i] == q2;
    assert(!m[e1].1@[i1].is_plugin && !m[e2].1@[i2].is_plugin);
    assert(e1 == e2 && i1 == i2);
}

/// Pigeonhole step of a restore: among the saved panes that share the last
/// one's tab position and title, one is not yet restored by the earlier
/// bookmarks.
proof fn lemma_free_saved_pane(panes: Seq<Pane>, m: Seq<(usize, Vec<PaneInfo>)>, tabs: Seq<TabInfo>, found: Seq<Pane>)
    requires
        panes.len() > 0,
        forall|j: int| 0 <= j < panes.len() ==> still_open(#[trigger] panes[j], m, tabs),
        pane_ids(panes).no_duplicates(),
        manifest_ids_unique(m),
        found.len() == panes.len() - 1,
        forall|k: int| 0 <= k < found.len() ==> {
            &&& (#[trigger] found[k]).tab_info == panes[k].tab_info
            &&& found[k].pane_info.title@ == panes[k].pane_info.title@
            &&& !found[k].pane_info.is_plugin
            &&& manifest_get(m, panes[k].tab_info.position)->0.contains(found[k].pane_info)
        },
    ensures
        exists|j: int| 0 <= j < panes.len() && (#[trigger] panes[j]).tab_info.position == panes.last().tab_info.position
            && panes[j].pane_info.title@ == panes.last().pane_info.title@
            && !pane_ids(found).contains(panes[j].pane_info.id),
{
    let n = panes.len() - 1;
    let last = panes.last();
    let same = |j: int| panes[j].tab_info.position == last.tab_info.position && panes[j].pane_info.title@ == last.pane_info.title@;
    let big = Set::new(|j: int| 0 <= j <= n && same(j));
    let small = Set::new(|k: int| 0 <= k < n && same(k));
    vstd::set_lib::lemma_int_range(0, n + 1);
    vstd::set_lib::lemma_len_subset(big, vstd::set_lib::set_int_range(0, n + 1));
    assert(small =~= big.remove(n));
    let fid = |j: int| panes[j].pane_info.id;
    let gid = |k: int| found[k].pane_info.id;
    let ids = big.map(fid);
    let found_ids = small.map(gid);
    assert(vstd::relations::injective_on(fid, big)) by {
        assert forall|x1: int, x2: int| big.contains(x1) && big.contains(x2) && #[trigger] fid(x1) == #[trigger] fid(x2) implies x1 == x2 by {
            assert(pane_ids(panes)[x1] == fid(x1) && pane_ids(panes)[x2] == fid(x2));
        }
    }
    vstd::set_lib::lemma_map_size(big, ids, fid);
    vstd::set_lib::lemma_map_size_bound(small, found_ids, gid);
    if !exists|j: int| 0 <= j < panes.len() && (#[trigger] panes[j]).tab_info.position == last.tab_info.position
        && panes[j].pane_info.title@ == last.pane_info.title@
        && !pane_ids(found).contains(panes[j].pane_info.id) {
        assert forall|x: u32| ids.contains(x) implies found_ids.contains(x) by {
            let j = choose|j: int| big.contains(j) && fid(j) == x;
            assert(same(j));
            assert(pane_ids(found).contains(panes[j].pane_info.id));
            let k = choose|k: int| 0 <= k < pane_ids(found).len() && pane_ids(found)[k] == x;
            assert(found[k].pane_info.id == x);
            assert(still_open(panes[j], m, tabs));
            lemma_listed_once(m, panes[k].tab_info.position, found[k].pane_info, panes[j].tab_info.position, panes[j].pane_info);
            assert(small.contains(k));
            assert(gid(k) == x);
        }
        vstd::set_lib::lemma_len_subset(ids, found_ids);
        assert(big.contains(n));
        assert(false);
    }
}

/// Restoring from saved bookmarks, one step at a time: every bookmark
/// restores a pane of the saved pane's tab with its title, none twice.
proof fn lemma_restore(panes: Seq<Pane>, m: Seq<(usize, Vec<PaneInfo>)>, tabs: Seq<TabInfo>, taken: Seq<u32>)
    requires
        forall|j: int| 0 <= j < panes.len() ==> still_open(#[trigger] panes[j], m, tabs)
            && !taken.contains(panes[j].pane_info.id),
        pane_ids(panes).no_duplicates(),
        tab_names_distinct(tabs),
        manifest_ids_unique(m),
    ensures
        match_bookmarks(bookmarks_of(panes), m, tabs, taken).1.len() == 0,
        match_bookmarks(bookmarks_of(panes), m, tabs, taken).0.len() == panes.len(),
        pane_ids(match_bookmarks(bookmarks_of(panes), m, tabs, taken).0).no_duplicates(),
        forall|k: int| 0 <= k < panes.len() ==> {
            let q = #[trigger] match_bookmarks(bookmarks_of(panes), m, tabs, taken).0[k];
            &&& q.tab_info == panes[k].tab_info
            &&& q.pane_info.title@ == panes[k].pane_info.title@
            &&& !q.pane_info.is_plugin
            &&& manifest_get(m, panes[k].tab_info.position)->0.contains(q.pane_info)
            &&& !taken.contains(q.pane_info.id)
        },
    decreases panes.len(),
{
    if panes.len() > 0 {
        let n = panes.len() - 1;
        let d = panes.drop_last();
        let p = panes.last();
        assert(pane_ids(d) =~= pane_ids(panes).drop_last());
        assert forall|j: int| 0 <= j < d.len() implies still_open(#[trigger] d[j], m, tabs)
            && !taken.contains(d[j].pane_info.id) by {
            assert(d[j] == panes[j]);
        }
        lemma_restore(d, m, tabs, taken);
        assert(bookmarks_of(panes).drop_last() =~= bookmarks_of(d));
        let prev = match_bookmarks(bookmarks_of(d), m, tabs, taken);
        let found = prev.0;
        let b = bookmarks_of(panes).last();
        let taken2 = taken + pane_ids(found);
        assert(b.tab_name@ == p.tab_info.name@ && b.pane_title@ == p.pane_info.title@);
        assert(still_open(panes[n], m, tabs));
        lemma_tab_found(tabs, p.tab_info);
        let ps = manifest_get(m, p.tab_info.position)->0;
        assert forall|k: int| 0 <= k < found.len() implies {
            &&& (#[trigger] found[k]).tab_info == panes[k].tab_info
            &&& found[k].pane_info.title@ == panes[k].pane_info.title@
            &&& !found[k].pane_info.is_plugin
            &&& manifest_get(m, panes[k].tab_info.position)->0.contains(found[k].pane_info)
        } by {
            assert(d[k] == panes[k]);
        }
        lemma_free_saved_pane(panes, m, tabs, found);
        let j = choose|j: int| 0 <= j < panes.len() && (#[trigger] panes[j]).tab_info.position == panes.last().tab_info.position
            && panes[j].pane_info.title@ == panes.last().pane_info.title@
            && !pane_ids(found).contains(panes[j].pane_info.id);
        assert(still_open(panes[j], m, tabs));
        let w = panes[j].pane_info;
        let pred = free_terminal_titled(b.pane_title@, taken2);
        assert(!taken.contains(w.id));
        assert(!taken2.contains(w.id)) by {
            if taken2.contains(w.id) {
                let t = choose|t: int| 0 <= t < taken2.len() && taken2[t] == w.id;
                if t >= taken.len() {
                    assert(pane_ids(found)[t - taken.len()] == w.id);
                } else {
                    assert(taken[t] == w.id);
                }
            }
        }
        assert(pred(w));
        let wi = choose|i: int| 0 <= i < ps.len() && ps[i] == w;
        lemma_find_first(ps, pred);
        let k = find_first(ps, pred)->0;
        let q = ps[k];
        assert(pred(q));
        assert(bookmark_match(b, m, tabs, taken2) == Some(Pane { pane_info: q, tab_info: p.tab_info, last_accessed: 0 }));
        let cur = match_bookmarks(bookmarks_of(panes), m, tabs, taken);
        assert(cur.0 == found.push(Pane { pane_info: q, tab_info: p.tab_info, last_accessed: 0 }));
        assert(!pane_ids(found).contains(q.id)) by {
            if pane_ids(found).contains(q.id) {
                let t = choose|t: int| 0 <= t < pane_ids(found).len() && pane_ids(found)[t] == q.id;
                assert(taken2[taken.len() + t] == q.id);
            }
        }
        assert(!taken.contains(q.id)) by {
            if taken.contains(q.id) {
                let t = choose|t: int| 0 <= t < taken.len() && taken[t] == q.id;
                assert(taken2[t] == q.id);
            }
        }
        assert(pane_ids(cur.0) =~= pane_ids(found).push(q.id));
        assert forall|k2: int| 0 <= k2 < panes.len() implies {
            let r = #[trigger] cur.0[k2];
            &&& r.tab_info == panes[k2].tab_info
            &&& r.pane_info.title@ == panes[k2].pane_info.title@
            &&& !r.pane_info.is_plugin
            &&& manifest_get(m, panes[k2].tab_info.position)->0.contains(r.pane_info)
            &&& !taken.contains(r.pane_info.id)
        } by {
            if k2 < n {
                assert(d[k2] == panes[k2]);
                assert(cur.0[k2] == found[k2]);
            }
        }
    }
}

/// What is saved comes back on a restore: when every saved pane is still
/// open (a terminal pane of an open tab that the layout lists) and is not
/// among the panes already tracked, the bookmarks written for the list each
/// restore a pane with the saved tab name and title, in the saved order, and
/// none is left pending. Tab names must not repeat, nor pane ids in the
/// saved list or the layout.
pub proof fn law_restore_after_save(panes: Seq<Pane>, m: Seq<(usize, Vec<PaneInfo>)>, tabs: Seq<TabInfo>, taken: Seq<u32>)
    requires
        forall|j: int| 0 <= j < panes.len() ==> still_open(#[trigger] panes[j], m, tabs)
            && !taken.contains(panes[j].pane_info.id),
        pane_ids(panes).no_duplicates(),
        tab_names_distinct(tabs),
        manifest_ids_unique(m),
    ensures
        panes_names(match_bookmarks(bookmarks_of(panes), m, tabs, taken).0) == panes_names(panes),
        match_bookmarks(bookmarks_of(panes), m, tabs, taken).1.len() == 0,
{
    lemma_restore(panes, m, tabs, taken);
    let r = match_bookmarks(bookmarks_of(panes), m, tabs, taken).0;
    assert forall|k: int| 0 <= k < panes.len() implies #[trigger] panes_names(r)[k] == panes_names(panes)[k] by {
        assert(r[k].tab_info == panes[k].tab_info);
    }
    assert(panes_names(r) =~= panes_names(panes));
}

/// Index of the first tab named `name`.
fn tab_index_named(tab_infos: &Vec<TabInfo>, name: &String) -> (r: Option<usize>)
    ensures
        r matches Some(i) ==> i < tab_infos.len(),
        match r {
            Some(i) => find_first(tab_infos@, tab_named(name@)) == Some(i as int),
            None => find_first(tab_infos@, tab_named(name@)) is None,
        },
{
    let mut i: usize = 0;
    while i < tab_infos.len()
        invariant
            i <= tab_infos.len(),
            forall|j: int| 0 <= j < i ==> !tab_named(name@)(#[trigger] tab_infos@[j]),
        decreases tab_infos.len() - i,
    {
        if tab_infos[i].name == *name {
            proof {
                lemma_find_first_is(tab_infos@, tab_named(name@), i as int);
            }
            return Some(i);
        }
        i += 1;
    }
    proof {
        lemma_find_first_none(tab_infos@, tab_named(name@));
    }
    None
}

/// Finds the live pane that `b` restores, given the ids already taken.
fn match_one(b: &PaneBookmark, manifest: &PaneManifest, tab_infos: &Vec<TabInfo>, taken: &Vec<u32>) -> (r: Option<Pane>)
    ensures
        r == bookmark_match(*b, manifest.panes@, tab_infos@, taken@),
{
    let ti = match tab_index_named(tab_infos, &b.tab_name) {
        Some(ti) => ti,
        None => return None,
    };
    let tab = &tab_infos[ti];
    let e = match manifest_entry_index(manifest, tab.position) {
        Some(e) => e,
        None => return None,
    };
    proof {
        lemma_find_first(manifest.panes@, crate::model::entry_at(tab.position));
    }
    let ps = &manifest.panes[e].1;
    let ghost pred = free_terminal_titled(b.pane_title@, taken@);
    assert(manifest_get(manifest.panes@, tab.position) == Some(ps@));
    assert(first_such(tab_infos@, tab_named(b.tab_name@)) == Some(*tab));
    let mut j: usize = 0;
    while j < ps.len()
        invariant
            j <= ps.len(),
            manifest_get(manifest.panes@, tab.position) == Some(ps@),
            first_such(tab_infos@, tab_named(b.tab_name@)) == Some(*tab),
            pred == free_terminal_titled(b.pane_title@, taken@),
            forall|t: int| 0 <= t < j ==> !pred(#[trigger] ps@[t]),
        decreases ps.len() - j,
    {
        let p = &ps[j];
        if !p.is_plugin && p.title == b.pane_title && !contains_id(taken, p.id) {
            proof {
                lemma_find_first_is(ps@, pred, j as int);
                assert(first_such(ps@, pred) == Some(*p));
            }
            return Some(Pane { pane_info: p.duplicate(), tab_info: tab.duplicate(), last_accessed: 0 });
        }
        j += 1;
    }
    proof {
        lemma_find_first_none(ps@, pred);
    }
    None
}

/// An element-by-element copy.
pub fn duplicate_all(bs: &Vec<PaneBookmark>) -> (r: Vec<PaneBookmark>)
    ensures
        r@ == bs@,
{
    let mut copy: Vec<PaneBookmark> = Vec::new();
    let mut i: usize = 0;
    while i < bs.len()
        invariant
            i <= bs.len(),
            copy@ == bs@.take(i as int),
        decreases bs.len() - i,
    {
        copy.push(bs[i].duplicate());
        assert(copy@ =~= bs@.take(i + 1));
        i += 1;
    }
    assert(copy@ =~= bs@);
    copy
}

impl Persistence {
    /// No bookmarks loaded and none saved.
    pub fn new() -> (r: Persistence)
        ensures
            r.pending_bookmarks@.len() == 0,
            r.last_saved@.len() == 0,
    {
        Persistence { pending_bookmarks: Vec::new(), last_saved: Vec::new() }
    }

    /// Whether the names of `panes` differ from the bookmarks last saved.
    pub fn has_changed(&self, panes: &Vec<Pane>) -> (r: bool)
        ensures
            r == (bookmarks_names(self.last_saved@) != panes_names(panes@)),
    {
        if self.last_saved.len() != panes.len() {
            assert(bookmarks_names(self.last_saved@).len() != panes_names(panes@).len());
            return true;
        }
        let mut i: usize = 0;
        while i < panes.len()
            invariant
                i <= panes.len(),
                self.last_saved@.len() == panes@.len(),
                forall|t: int| 0 <= t < i ==> bookmarks_names(self.last_saved@)[t] == panes_names(panes@)[t],
            decreases panes.len() - i,
        {
            if self.last_saved[i].tab_name != panes[i].tab_info.name
                || self.last_saved[i].pane_title != panes[i].pane_info.title {
                assert(bookmarks_names(self.last_saved@)[i as int] != panes_names(panes@)[i as int]);
                return true;
            }
            i += 1;
        }
        assert(bookmarks_names(self.last_saved@) =~= panes_names(panes@));
        false
    }

    /// Records the names of `panes` as the bookmarks written to disk, and
    /// returns them.
    pub fn record_saved(&mut self, panes: &Vec<Pane>) -> (r: Vec<PaneBookmark>)
        ensures
            r@ == bookmarks_of(panes@),
            bookmarks_names(r@) == panes_names(panes@),
            final(self).last_saved@ == r@,
            final(self).pending_bookmarks@ == old(self).pending_bookmarks@,
    {
        let mut out: Vec<PaneBookmark> = Vec::new();
        let mut i: usize = 0;
        while i < panes.len()
            invariant
                i <= panes.len(),
                out@ == bookmarks_of(panes@.take(i as int)),
            decreases panes.len() - i,
        {
            out.push(PaneBookmark { tab_name: panes[i].tab_info.name.clone(), pane_title: panes[i].pane_info.title.clone() });
            assert(out@ =~= bookmarks_of(panes@.take(i + 1)));
            i += 1;
        }
        assert(panes@.take(i as int) =~= panes@);
        assert(bookmarks_names(out@) =~= panes_names(panes@));
        self.last_saved = duplicate_all(&out);
        out
    }

    /// Takes the bookmarks read from disk: they wait to be matched with live
    /// panes, and they are what is saved now.
    pub fn on_loaded(&mut self, bookmarks: Vec<PaneBookmark>)
        ensures
            final(self).pending_bookmarks@ == bookmarks@,
            final(self).last_saved@ == bookmarks@,
    {
        let copy = duplicate_all(&bookmarks);
        self.pending_bookmarks = bookmarks;
        self.last_saved = copy;
    }

    /// Matches pending bookmarks to live panes not already in `panes`
    /// (restoring the list after a session reload). Matched bookmarks leave
    /// the pending list; the restored panes are returned.
    pub fn match_pending_bookmarks(&mut self, panes: &Vec<Pane>, pane_manifest: &PaneManifest, tab_infos: &Vec<TabInfo>) -> (r: Vec<Pane>)
        ensures
            r@ == match_bookmarks(old(self).pending_bookmarks@, pane_manifest.panes@, tab_infos@, pane_ids(panes@)).0,
            final(self).pending_bookmarks@ == match_bookmarks(old(self).pending_bookmarks@, pane_manifest.panes@, tab_infos@, pane_ids(panes@)).1,
            final(self).last_saved@ == old(self).last_saved@,
    {
        let ghost pending = self.pending_bookmarks@;
        let ghost base = pane_ids(panes@);
        let mut taken = ids_of(panes);
        let mut found: Vec<Pane> = Vec::new();
        let mut left: Vec<PaneBookmark> = Vec::new();
        let mut i: usize = 0;
        while i < self.pending_bookmarks.len()
            invariant
                pending == self.pending_bookmarks@,
                base == pane_ids(panes@),
                i <= pending.len(),
                taken@ == base + pane_ids(found@),
                (found@, left@) == match_bookmarks(pending.take(i as int), pane_manifest.panes@, tab_infos@, base),
            decreases pending.len() - i,
        {
            assert(pending.take(i + 1).drop_last() =~= pending.take(i as int));
            let b = &self.pending_bookmarks[i];
            match match_one(b, pane_manifest, tab_infos, &taken) {
                Some(p) => {
                    taken.push(p.pane_info.id);
                    found.push(p);
                    assert(pane_ids(found@) =~= pane_ids(found@.drop_last()).push(found@.last().pane_info.id));
                    assert(taken@ =~= base + pane_ids(found@));
                },
                None => {
                    left.push(b.duplicate());
                },
            }
            i += 1;
        }
        assert(pending.take(i as int) =~= pending);
        self.pending_bookmarks = left;
        found
    }
}

} // verus!
