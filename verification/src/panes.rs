//! Reconciling the tracked panes with the live manifest, and collecting the
//! terminal panes that the list does not track yet.
use vstd::prelude::*;
use crate::find::{first_such, lemma_find_first_is, lemma_find_first_none};
use crate::model::{
    Pane, PaneInfo, PaneManifest, TabInfo, tab_at, terminal_with_id, tab_index_at,
    terminal_index_with_id, contains_id,
};

verus! {

/// The manifest entry lists a terminal pane with id `id`, in a tab that
/// `tabs` describes.
pub open spec fn holds_known_terminal(id: u32, tabs: Seq<TabInfo>) -> spec_fn((usize, Vec<PaneInfo>)) -> bool {
    |e: (usize, Vec<PaneInfo>)|
        first_such(e.1@, terminal_with_id(id)) is Some && first_such(tabs, tab_at(e.0)) is Some
}

/// The pane `p` as the manifest now shows it: the fresh pane record and tab
/// record of the first tab that holds a terminal pane with its id, keeping its
/// access time; `None` when no tab holds it any more.
pub open spec fn refreshed(p: Pane, m: Seq<(usize, Vec<PaneInfo>)>, tabs: Seq<TabInfo>) -> Option<Pane> {
    match first_such(m, holds_known_terminal(p.pane_info.id, tabs)) {
        Some(e) => Some(
            Pane {
                pane_info: first_such(e.1@, terminal_with_id(p.pane_info.id))->0,
                tab_info: first_such(tabs, tab_at(e.0))->0,
                last_accessed: p.last_accessed,
            },
        ),
        None => None,
    }
}

/// The tracked panes that still exist, refreshed, in their order.
pub open spec fn valid_panes(panes: Seq<Pane>, m: Seq<(usize, Vec<PaneInfo>)>, tabs: Seq<TabInfo>) -> Seq<Pane>
    decreases panes.len(),
{
    if panes.len() == 0 {
        seq![]
    } else {
        let rest = valid_panes(panes.drop_last(), m, tabs);
        match refreshed(panes.last(), m, tabs) {
            Some(q) => rest.push(q),
            None => rest,
        }
    }
}

/// Finds `p` in the manifest and returns it with fresh pane and tab records.
fn refresh(p: &Pane, manifest: &PaneManifest, tab_infos: &Vec<TabInfo>) -> (r: Option<Pane>)
    ensures
        r == refreshed(*p, manifest.panes@, tab_infos@),
{
    let id = p.pane_info.id;
    let ghost pred = holds_known_terminal(id, tab_infos@);
    let mut j: usize = 0;
    while j < manifest.panes.len()
        invariant
            j <= manifest.panes.len(),
            id == p.pane_info.id,
            pred == holds_known_terminal(id, tab_infos@),
            forall|t: int| 0 <= t < j ==> !pred(#[trigger] manifest.panes@[t]),
        decreases manifest.panes.len() - j,
    {
        let entry = &manifest.panes[j];
        if let Some(pi) = terminal_index_with_id(&entry.1, id) {
            if let Some(ti) = tab_index_at(tab_infos, entry.0) {
                proof {
                    lemma_find_first_is(manifest.panes@, pred, j as int);
                }
                return Some(
                    Pane {
                        pane_info: entry.1[pi].duplicate(),
                        tab_info: tab_infos[ti].duplicate(),
                        last_accessed: p.last_accessed,
                    },
                );
            }
        }
        j += 1;
    }
    proof {
        lemma_find_first_none(manifest.panes@, pred);
    }
    None
}

/// Filters the stored pane list, removing any panes that no longer exist and
/// updating the pane and tab records of those that do (a pane's tab may have
/// moved or been renamed). Panes are found by their session-unique id.
pub fn get_valid_panes(panes: &Vec<Pane>, pane_manifest: &PaneManifest, tab_infos: &Vec<TabInfo>) -> (r: Vec<Pane>)
    ensures
        r@ == valid_panes(panes@, pane_manifest.panes@, tab_infos@),
{
    let mut new_panes: Vec<Pane> = Vec::new();
    let mut i: usize = 0;
    while i < panes.len()
        invariant
            i <= panes.len(),
            new_panes@ == valid_panes(panes@.take(i as int), pane_manifest.panes@, tab_infos@),
        decreases panes.len() - i,
    {
        let q = refresh(&panes[i], pane_manifest, tab_infos);
        proof {
            assert(panes@.take(i + 1).drop_last() =~= panes@.take(i as int));
        }
        if let Some(q) = q {
            new_panes.push(q);
        }
        i += 1;
    }
    assert(panes@.take(i as int) =~= panes@);
    new_panes
}

/// The terminal panes of `ps` whose ids are not in `exclude`, as tracked
/// panes of tab `tab` never accessed.
pub open spec fn tab_new_panes(ps: Seq<PaneInfo>, tab: TabInfo, exclude: Seq<u32>) -> Seq<Pane>
    decreases ps.len(),
{
    if ps.len() == 0 {
        seq![]
    } else {
        let rest = tab_new_panes(ps.drop_last(), tab, exclude);
        let p = ps.last();
        if !p.is_plugin && !exclude.contains(p.id) {
            rest.push(Pane { pane_info: p, tab_info: tab, last_accessed: 0 })
        } else {
            rest
        }
    }
}

/// Every terminal pane of the manifest whose id is not in `exclude`, tab by
/// tab in manifest order, skipping tabs that `tabs` does not describe.
pub open spec fn new_terminal_panes(m: Seq<(usize, Vec<PaneInfo>)>, tabs: Seq<TabInfo>, exclude: Seq<u32>) -> Seq<Pane>
    decreases m.len(),
{
    if m.len() == 0 {
        seq![]
    } else {
        let rest = new_terminal_panes(m.drop_last(), tabs, exclude);
        match first_such(tabs, tab_at(m.last().0)) {
            Some(t) => rest + tab_new_panes(m.last().1@, t, exclude),
            None => rest,
        }
    }
}

/// Collects the terminal panes of the manifest whose ids are not in
/// `exclude`, each with the tab record of its tab and no access time.
pub fn collect_new_panes(pane_manifest: &PaneManifest, tab_infos: &Vec<TabInfo>, exclude: &Vec<u32>) -> (r: Vec<Pane>)
    ensures
        r@ == new_terminal_panes(pane_manifest.panes@, tab_infos@, exclude@),
{
    let m = &pane_manifest.panes;
    let mut out: Vec<Pane> = Vec::new();
    let mut i: usize = 0;
    while i < m.len()
        invariant
            i <= m.len(),
            m == &pane_manifest.panes,
            out@ == new_terminal_panes(m@.take(i as int), tab_infos@, exclude@),
        decreases m.len() - i,
    {
        assert(m@.take(i + 1).drop_last() =~= m@.take(i as int));
        if let Some(ti) = tab_index_at(tab_infos, m[i].0) {
            let tab = &tab_infos[ti];
            let ps = &m[i].1;
            let ghost base = out@;
            let mut j: usize = 0;
            assert(ps@.take(0) =~= Seq::<PaneInfo>::empty());
            assert(base + tab_new_panes(ps@.take(0), *tab, exclude@) =~= base);
            while j < ps.len()
                invariant
                    j <= ps.len(),
                    out@ == base + tab_new_panes(ps@.take(j as int), *tab, exclude@),
                decreases ps.len() - j,
            {
                assert(ps@.take(j + 1).drop_last() =~= ps@.take(j as int));
                let p = &ps[j];
                if !p.is_plugin && !contains_id(exclude, p.id) {
                    out.push(Pane { pane_info: p.duplicate(), tab_info: tab.duplicate(), last_accessed: 0 });
                    assert(out@ =~= base + tab_new_panes(ps@.take(j + 1), *tab, exclude@));
                }
                j += 1;
            }
            assert(ps@.take(j as int) =~= ps@);
        }
        i += 1;
    }
    assert(m@.take(i as int) =~= m@);
    out
}

} // verus!
