//! No pane is tracked twice: every operation keeps the ids of the tracked
//! panes free of repeats, as long as the host reports each terminal pane once.
use vstd::prelude::*;
use vstd::seq_lib::lemma_no_dup_in_concat;
use crate::model::{Pane, PaneInfo, TabInfo, pane_ids};
use crate::panes::{valid_panes, new_terminal_panes, tab_new_panes};
use crate::persistence::match_bookmarks;
use crate::sort::{sorted_by_key, lemma_sorted_by_key};
use crate::state::{
    StateView, stamped, refreshed_time, with_worker_times, panes_updated, step, Event, Key, timestamps_requested,
    selected_index, lemma_shown_indices,
};
use crate::timestamps::TimestampEntry;
use crate::fuzzy::lowered;
use crate::laws::{law_closed_panes_dropped, law_restored_panes_are_new, lemma_refreshed};

verus! {

/// The manifest lists each terminal pane once: no two positions hold
/// terminal panes with the same id.
pub open spec fn manifest_ids_unique(m: Seq<(usize, Vec<PaneInfo>)>) -> bool {
    forall|e1: int, i1: int, e2: int, i2: int|
        0 <= e1 < m.len() && 0 <= e2 < m.len() && 0 <= i1 < m[e1].1@.len() && 0 <= i2 < m[e2].1@.len()
            && !(#[trigger] m[e1].1@[i1]).is_plugin && !(#[trigger] m[e2].1@[i2]).is_plugin
            && m[e1].1@[i1].id == m[e2].1@[i2].id ==> e1 == e2 && i1 == i2
}

/// Reordering keeps ids free of repeats.
pub proof fn lemma_permutation_keeps_ids_unique(s: Seq<Pane>, t: Seq<Pane>)
    requires
        s.to_multiset() == t.to_multiset(),
        pane_ids(s).no_duplicates(),
    ensures
        pane_ids(t).no_duplicates(),
{
    broadcast use vstd::seq_lib::group_to_multiset_ensures;
    assert(s.no_duplicates()) by {
        assert forall|i: int, j: int| 0 <= i < s.len() && 0 <= j < s.len() && i != j implies s[i] != s[j] by {
            assert(pane_ids(s)[i] == s[i].pane_info.id && pane_ids(s)[j] == s[j].pane_info.id);
        }
    }
    s.lemma_multiset_has_no_duplicates();
    t.lemma_multiset_has_no_duplicates_conv();
    assert forall|a: int, b: int| 0 <= a < pane_ids(t).len() && 0 <= b < pane_ids(t).len() && a != b implies pane_ids(t)[a]
        != pane_ids(t)[b] by {
        assert(t.contains(t[a]) && t.contains(t[b]));
        assert(s.to_multiset().count(t[a]) > 0 && s.to_multiset().count(t[b]) > 0);
        let i = choose|i: int| 0 <= i < s.len() && s[i] == t[a];
        let j = choose|j: int| 0 <= j < s.len() && s[j] == t[b];
        assert(t[a] != t[b]);
        assert(pane_ids(s)[i] == s[i].pane_info.id && pane_ids(s)[j] == s[j].pane_info.id);
    }
}

/// Ordering by key keeps ids free of repeats.
pub proof fn lemma_sort_keeps_ids_unique(s: Seq<Pane>, recent: bool)
    requires
        pane_ids(s).no_duplicates(),
    ensures
        pane_ids(sorted_by_key(s, recent)).no_duplicates(),
{
    lemma_sorted_by_key(s, recent);
    lemma_permutation_keeps_ids_unique(s, sorted_by_key(s, recent));
}

/// Dropping closed panes keeps ids free of repeats.
pub proof fn lemma_valid_keeps_ids_unique(panes: Seq<Pane>, m: Seq<(usize, Vec<PaneInfo>)>, tabs: Seq<TabInfo>)
    requires
        pane_ids(panes).no_duplicates(),
    ensures
        pane_ids(valid_panes(panes, m, tabs)).no_duplicates(),
    decreases panes.len(),
{
    if panes.len() > 0 {
        let d = panes.drop_last();
        assert(pane_ids(d) =~= pane_ids(panes).drop_last());
        lemma_valid_keeps_ids_unique(d, m, tabs);
        law_closed_panes_dropped(d, m, tabs);
        lemma_refreshed(panes.last(), m, tabs);
        let prev = valid_panes(d, m, tabs);
        let cur = valid_panes(panes, m, tabs);
        if cur.len() > prev.len() {
            let q = cur[cur.len() - 1];
            assert(cur == prev.push(q));
            assert(q.pane_info.id == panes.last().pane_info.id);
            assert(pane_ids(cur) =~= pane_ids(prev).push(q.pane_info.id));
            assert forall|a: int, b: int| 0 <= a < b < pane_ids(cur).len() implies pane_ids(cur)[a] != pane_ids(cur)[b] by {
                if b == pane_ids(cur).len() - 1 {
                    let x = prev[a];
                    assert(x == valid_panes(d, m, tabs)[a]);
                    let i = choose|i: int| 0 <= i < d.len() && (#[trigger] d[i]).pane_info.id == x.pane_info.id
                        && d[i].last_accessed == x.last_accessed;
                    assert(pane_ids(panes)[i] == d[i].pane_info.id);
                    assert(pane_ids(panes)[panes.len() - 1] == panes.last().pane_info.id);
                }
            }
        }
    }
}

/// The new panes of one tab: each is a terminal pane of `ps` whose id is not
/// excluded, and their ids have no repeats when `ps` lists each terminal once.
proof fn lemma_tab_new_panes(ps: Seq<PaneInfo>, tab: TabInfo, exclude: Seq<u32>)
    requires
        forall|i1: int, i2: int| 0 <= i1 < ps.len() && 0 <= i2 < ps.len() && !(#[trigger] ps[i1]).is_plugin
            && !(#[trigger] ps[i2]).is_plugin && ps[i1].id == ps[i2].id ==> i1 == i2,
    ensures
        pane_ids(tab_new_panes(ps, tab, exclude)).no_duplicates(),
        forall|j: int| 0 <= j < tab_new_panes(ps, tab, exclude).len() ==> {
            let q = #[trigger] tab_new_panes(ps, tab, exclude)[j];
            &&& !exclude.contains(q.pane_info.id)
            &&& exists|i: int| 0 <= i < ps.len() && q.pane_info == ps[i] && !ps[i].is_plugin
        },
    decreases ps.len(),
{
    if ps.len() > 0 {
        let d = ps.drop_last();
        assert forall|i1: int, i2: int| 0 <= i1 < d.len() && 0 <= i2 < d.len() && !(#[trigger] d[i1]).is_plugin
            && !(#[trigger] d[i2]).is_plugin && d[i1].id == d[i2].id implies i1 == i2 by {
            assert(d[i1] == ps[i1] && d[i2] == ps[i2]);
        }
        lemma_tab_new_panes(d, tab, exclude);
        let prev = tab_new_panes(d, tab, exclude);
        let cur = tab_new_panes(ps, tab, exclude);
        assert forall|j: int| 0 <= j < prev.len() implies exists|i: int| 0 <= i < ps.len() && (#[trigger] prev[j]).pane_info == ps[i]
            && !ps[i].is_plugin by {
            let i = choose|i: int| 0 <= i < d.len() && prev[j].pane_info == d[i] && !d[i].is_plugin;
            assert(ps[i] == d[i]);
        }
        if cur.len() > prev.len() {
            let p = ps.last();
            assert(cur == prev.push(Pane { pane_info: p, tab_info: tab, last_accessed: 0 }));
            assert(pane_ids(cur) =~= pane_ids(prev).push(p.id));
            assert forall|a: int, b: int| 0 <= a < b < pane_ids(cur).len() implies pane_ids(cur)[a] != pane_ids(cur)[b] by {
                if b == pane_ids(cur).len() - 1 {
                    let i = choose|i: int| 0 <= i < ps.len() && (#[trigger] prev[a]).pane_info == ps[i] && !ps[i].is_plugin;
                    assert(i < d.len()) by {
                        let i0 = choose|i0: int| 0 <= i0 < d.len() && prev[a].pane_info == d[i0] && !d[i0].is_plugin;
                        assert(ps[i0] == d[i0]);
                    }
                    assert(ps[ps.len() - 1] == p);
                }
            }
            assert forall|j: int| 0 <= j < cur.len() implies exists|i: int| 0 <= i < ps.len() && (#[trigger] cur[j]).pane_info == ps[i]
                && !ps[i].is_plugin by {
                if j < prev.len() {
                    assert(cur[j] == prev[j]);
                } else {
                    assert(cur[j].pane_info == ps[ps.len() - 1]);
                }
            }
        }
    }
}

/// The panes gathered from the manifest: none excluded, each a terminal pane
/// of some entry, and no repeated ids when the manifest lists each terminal
/// pane once.
pub proof fn lemma_new_terminal_panes(m: Seq<(usize, Vec<PaneInfo>)>, tabs: Seq<TabInfo>, exclude: Seq<u32>)
    requires
        manifest_ids_unique(m),
    ensures
        pane_ids(new_terminal_panes(m, tabs, exclude)).no_duplicates(),
        forall|j: int| 0 <= j < new_terminal_panes(m, tabs, exclude).len() ==> {
            let q = #[trigger] new_terminal_panes(m, tabs, exclude)[j];
            &&& !exclude.contains(q.pane_info.id)
            &&& exists|e: int, i: int| 0 <= e < m.len() && 0 <= i < m[e].1@.len() && q.pane_info == m[e].1@[i] && !m[e].1@[i].is_plugin
        },
    decreases m.len(),
{
    if m.len() > 0 {
        let d = m.drop_last();
        assert(manifest_ids_unique(d)) by {
            assert forall|e1: int, i1: int, e2: int, i2: int|
                0 <= e1 < d.len() && 0 <= e2 < d.len() && 0 <= i1 < d[e1].1@.len() && 0 <= i2 < d[e2].1@.len()
                    && !(#[trigger] d[e1].1@[i1]).is_plugin && !(#[trigger] d[e2].1@[i2]).is_plugin
                    && d[e1].1@[i1].id == d[e2].1@[i2].id implies e1 == e2 && i1 == i2 by {
                assert(d[e1] == m[e1] && d[e2] == m[e2]);
                assert(m[e1].1@[i1] == d[e1].1@[i1]);
                assert(m[e2].1@[i2] == d[e2].1@[i2]);
            }
        }
        lemma_new_terminal_panes(d, tabs, exclude);
        let prev = new_terminal_panes(d, tabs, exclude);
        let cur = new_terminal_panes(m, tabs, exclude);
        let le = m.len() - 1;
        let ps = m[le].1@;
        assert(m.last() == m[le]);
        assert forall|j: int| 0 <= j < prev.len() implies exists|e: int, i: int| 0 <= e < le && 0 <= i < m[e].1@.len()
            && (#[trigger] prev[j]).pane_info == m[e].1@[i] && !m[e].1@[i].is_plugin by {
            let (e, i) = choose|e: int, i: int| 0 <= e < d.len() && 0 <= i < d[e].1@.len() && prev[j].pane_info == d[e].1@[i]
                && !d[e].1@[i].is_plugin;
            assert(d[e] == m[e]);
        }
        if cur != prev {
            let t = crate::find::first_such(tabs, crate::model::tab_at(m.last().0))->0;
            let added = tab_new_panes(ps, t, exclude);
            assert(cur == prev + added);
            assert forall|i1: int, i2: int| 0 <= i1 < ps.len() && 0 <= i2 < ps.len() && !(#[trigger] ps[i1]).is_plugin
                && !(#[trigger] ps[i2]).is_plugin && ps[i1].id == ps[i2].id implies i1 == i2 by {
                assert(m[le].1@[i1] == ps[i1] && m[le].1@[i2] == ps[i2]);
            }
            lemma_tab_new_panes(ps, t, exclude);
            assert(pane_ids(cur) =~= pane_ids(prev) + pane_ids(added));
            assert forall|a: int, b: int| 0 <= a < pane_ids(prev).len() && 0 <= b < pane_ids(added).len() implies pane_ids(prev)[a]
                != pane_ids(added)[b] by {
                let (e, i) = choose|e: int, i: int| 0 <= e < le && 0 <= i < m[e].1@.len()
                    && (#[trigger] prev[a]).pane_info == m[e].1@[i] && !m[e].1@[i].is_plugin;
                let i2 = choose|i2: int| 0 <= i2 < ps.len() && (#[trigger] added[b]).pane_info == ps[i2] && !ps[i2].is_plugin;
                assert(m[le].1@[i2] == ps[i2]);
            }
            lemma_no_dup_in_concat(pane_ids(prev), pane_ids(added));
            assert forall|j: int| 0 <= j < cur.len() implies {
                let q = #[trigger] cur[j];
                &&& !exclude.contains(q.pane_info.id)
                &&& exists|e: int, i: int| 0 <= e < m.len() && 0 <= i < m[e].1@.len() && q.pane_info == m[e].1@[i] && !m[e].1@[i].is_plugin
            } by {
                if j < prev.len() {
                    assert(cur[j] == prev[j]);
                } else {
                    assert(cur[j] == added[j - prev.len()]);
                    let i2 = choose|i2: int| 0 <= i2 < ps.len() && added[j - prev.len()].pane_info == ps[i2] && !ps[i2].is_plugin;
                    assert(m[le].1@[i2] == ps[i2]);
                }
            }
        }
    }
}


/// The panes that keep a recorded time come from `s`, and their ids have no
/// repeats when those of `s` have none.
proof fn lemma_stamped(s: Seq<Pane>, entries: Seq<TimestampEntry>)
    requires
        pane_ids(s).no_duplicates(),
    ensures
        pane_ids(stamped(s, entries)).no_duplicates(),
        forall|j: int| 0 <= j < stamped(s, entries).len() ==> exists|i: int| 0 <= i < s.len()
            && (#[trigger] stamped(s, entries)[j]).pane_info.id == s[i].pane_info.id,
    decreases s.len(),
{
    if s.len() > 0 {
        let d = s.drop_last();
        assert(pane_ids(d) =~= pane_ids(s).drop_last());
        lemma_stamped(d, entries);
        let prev = stamped(d, entries);
        let cur = stamped(s, entries);
        assert forall|j: int| 0 <= j < prev.len() implies exists|i: int| 0 <= i < s.len()
            && (#[trigger] prev[j]).pane_info.id == s[i].pane_info.id by {
            let i = choose|i: int| 0 <= i < d.len() && prev[j].pane_info.id == d[i].pane_info.id;
            assert(s[i] == d[i]);
        }
        if cur.len() > prev.len() {
            let q = cur[cur.len() - 1];
            assert(cur == prev.push(q));
            assert(q.pane_info.id == s[s.len() - 1].pane_info.id);
            assert(pane_ids(cur) =~= pane_ids(prev).push(q.pane_info.id));
            assert forall|a: int, b: int| 0 <= a < b < pane_ids(cur).len() implies pane_ids(cur)[a] != pane_ids(cur)[b] by {
                if b == pane_ids(cur).len() - 1 {
                    let i = choose|i: int| 0 <= i < d.len() && (#[trigger] prev[a]).pane_info.id == d[i].pane_info.id;
                    assert(pane_ids(s)[i] == d[i].pane_info.id);
                    assert(pane_ids(s)[s.len() - 1] == q.pane_info.id);
                }
            }
            assert forall|j: int| 0 <= j < cur.len() implies exists|i: int| 0 <= i < s.len()
                && (#[trigger] cur[j]).pane_info.id == s[i].pane_info.id by {
                if j < prev.len() {
                    assert(cur[j] == prev[j]);
                } else {
                    assert(cur[j].pane_info.id == s[s.len() - 1].pane_info.id);
                }
            }
        }
    }
}

/// Appending panes whose ids are new and unrepeated keeps ids unrepeated.
proof fn lemma_append_new_ids(a: Seq<Pane>, b: Seq<Pane>)
    requires
        pane_ids(a).no_duplicates(),
        pane_ids(b).no_duplicates(),
        forall|j: int| 0 <= j < b.len() ==> !pane_ids(a).contains((#[trigger] b[j]).pane_info.id),
    ensures
        pane_ids(a + b).no_duplicates(),
{
    assert(pane_ids(a + b) =~= pane_ids(a) + pane_ids(b));
    assert forall|i: int, j: int| 0 <= i < pane_ids(a).len() && 0 <= j < pane_ids(b).len() implies pane_ids(a)[i]
        != pane_ids(b)[j] by {
        assert(pane_ids(b)[j] == b[j].pane_info.id);
        assert(pane_ids(a).contains(pane_ids(a)[i]));
    }
    lemma_no_dup_in_concat(pane_ids(a), pane_ids(b));
}

/// Merging the tracker's times keeps ids unrepeated.
proof fn lemma_worker_times_keep_ids_unique(panes: Seq<Pane>, m: Seq<(usize, Vec<PaneInfo>)>, tabs: Seq<TabInfo>, entries: Seq<TimestampEntry>)
    requires
        pane_ids(panes).no_duplicates(),
        manifest_ids_unique(m),
    ensures
        pane_ids(with_worker_times(panes, m, tabs, entries)).no_duplicates(),
{
    let new = new_terminal_panes(m, tabs, pane_ids(panes));
    lemma_new_terminal_panes(m, tabs, pane_ids(panes));
    lemma_stamped(new, entries);
    let st = stamped(new, entries);
    assert forall|j: int| 0 <= j < st.len() implies !pane_ids(panes).contains((#[trigger] st[j]).pane_info.id) by {
        let i = choose|i: int| 0 <= i < new.len() && st[j].pane_info.id == new[i].pane_info.id;
        assert(!pane_ids(panes).contains(new[i].pane_info.id));
    }
    lemma_append_new_ids(panes, st);
    let added = panes + st;
    let refreshed = added.map_values(|p: Pane| refreshed_time(p, entries));
    assert(pane_ids(refreshed) =~= pane_ids(added));
    lemma_sort_keeps_ids_unique(refreshed, true);
}

/// Reconciling keeps ids unrepeated when the manifest lists each terminal
/// pane once.
pub proof fn lemma_update_keeps_ids_unique(v: StateView)
    requires
        pane_ids(v.panes).no_duplicates(),
        v.pane_manifest matches Some(m) ==> manifest_ids_unique(m),
    ensures
        pane_ids(panes_updated(v).0.panes).no_duplicates(),
{
    if let (Some(m), Some(tabs)) = (v.pane_manifest, v.tab_info) {
        let panes1 = valid_panes(v.panes, m, tabs);
        lemma_valid_keeps_ids_unique(v.panes, m, tabs);
        let mb = match_bookmarks(v.pending, m, tabs, pane_ids(panes1));
        law_restored_panes_are_new(v.pending, m, tabs, pane_ids(panes1));
        assert(pane_ids(panes1 + mb.0) =~= pane_ids(panes1) + pane_ids(mb.0));
        lemma_sort_keeps_ids_unique(panes1 + mb.0, v.recent_sort);
        let panes2 = if mb.0.len() > 0 { sorted_by_key(panes1 + mb.0, v.recent_sort) } else { panes1 };
        lemma_worker_times_keep_ids_unique(panes2, m, tabs, v.timestamps);
    }
}

/// Removing or re-stamping a pane keeps ids unrepeated.
proof fn lemma_remove_update_keep_ids_unique(s: Seq<Pane>, i: int, now: u64)
    requires
        pane_ids(s).no_duplicates(),
        0 <= i < s.len(),
    ensures
        pane_ids(s.remove(i)).no_duplicates(),
        pane_ids(s.update(i, Pane { last_accessed: now, ..s[i] })).no_duplicates(),
{
    assert(pane_ids(s.update(i, Pane { last_accessed: now, ..s[i] })) =~= pane_ids(s));
    assert forall|a: int, b: int| 0 <= a < b < pane_ids(s.remove(i)).len() implies pane_ids(s.remove(i))[a]
        != pane_ids(s.remove(i))[b] by {
        let a0 = if a < i { a } else { a + 1 };
        let b0 = if b < i { b } else { b + 1 };
        assert(pane_ids(s.remove(i))[a] == pane_ids(s)[a0]);
        assert(pane_ids(s.remove(i))[b] == pane_ids(s)[b0]);
    }
}

/// No pane is tracked twice: when the tracked panes' ids have no repeats and
/// the manifest in effect lists each terminal pane once, every event leaves
/// the ids without repeats.
pub proof fn law_pane_ids_stay_unique(v: StateView, e: Event)
    requires
        pane_ids(v.panes).no_duplicates(),
        v.panes.len() <= usize::MAX,
        v.pane_manifest matches Some(m) ==> manifest_ids_unique(m),
        e matches Event::PaneUpdate(m) ==> manifest_ids_unique(m.panes@),
    ensures
        pane_ids(step(v, e).0.panes).no_duplicates(),
{
    lemma_shown_indices(v.panes, v.focused_pane, v.recent_sort, lowered(v.search_query));
    match e {
        Event::TabUpdate(tabs) => {
            let v0 = StateView { tab_info: Some(tabs@), ..v };
            let v1 = if v0.recent_sort && v0.session_name is Some { timestamps_requested(v0).0 } else { v0 };
            lemma_update_keeps_ids_unique(v1);
        },
        Event::PaneUpdate(m) => {
            let v0 = StateView { pane_manifest: Some(m.panes@), ..v };
            let v1 = if v0.recent_sort && v0.session_name is Some { timestamps_requested(v0).0 } else { v0 };
            lemma_update_keeps_ids_unique(v1);
        },
        Event::BookmarksLoaded(bms) => {
            lemma_update_keeps_ids_unique(StateView { pending: bms@, last_saved: bms@, ..v });
        },
        Event::TimestampsLoaded(map) => {
            let v1 = match map {
                Some(mm) => StateView { timestamps: mm.entries@, ..v },
                None => v,
            };
            lemma_update_keeps_ids_unique(StateView { timestamps_loaded: true, ..v1 });
        },
        Event::Key(k, now) => {
            if let Some(i) = selected_index(v) {
                lemma_remove_update_keep_ids_unique(v.panes, i as int, now);
            }
            if !v.search_mode {
                match k {
                    Key::Char('A') => {
                        if let (Some(m), Some(tabs)) = (v.pane_manifest, v.tab_info) {
                            let added = new_terminal_panes(m, tabs, pane_ids(v.panes));
                            lemma_new_terminal_panes(m, tabs, pane_ids(v.panes));
                            lemma_append_new_ids(v.panes, added);
                            lemma_sort_keeps_ids_unique(v.panes + added, v.recent_sort);
                        } else {
                            assert(v.panes + Seq::<Pane>::empty() =~= v.panes);
                            lemma_sort_keeps_ids_unique(v.panes, v.recent_sort);
                        }
                    },
                    Key::Char('a') => {
                        if let Some(f) = v.focused_pane {
                            if !pane_ids(v.panes).contains(f.pane_info.id) {
                                let np = Pane { last_accessed: now, ..f };
                                assert(v.panes.push(np) =~= v.panes + seq![np]);
                                lemma_append_new_ids(v.panes, seq![np]);
                                lemma_sort_keeps_ids_unique(v.panes.push(np), v.recent_sort);
                            }
                        }
                    },
                    _ => {},
                }
            }
        },
        _ => {},
    }
}

} // verus!
