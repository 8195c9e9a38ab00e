//! Properties that hold across the library's operations.
use vstd::prelude::*;
use crate::find::{find_first, first_such, lemma_find_first};
use crate::model::{Pane, PaneInfo, TabInfo, pane_ids, tab_at, terminal_with_id};
use crate::panes::{holds_known_terminal, refreshed, valid_panes, new_terminal_panes, tab_new_panes};
use crate::persistence::{
    PaneBookmark, bookmark_match, match_bookmarks, bookmarks_names, bookmarks_of, panes_names, free_terminal_titled,
};
use crate::state::{
    StateView, shown, shown_indices, pane_shown, selected_down, selected_up, saved, Action, Key, normal_key,
    search_key, selected_index, lemma_shown_indices,
};
use crate::sort::{sorted_by_key, lemma_sorted_by_key, keys_ascending};
use crate::state::{panes_updated, with_worker_times, RenderPlan, plan_ok};
use crate::text::decimal;
use crate::timestamps::{TimestampEntry, timestamp_for};
use crate::model::{spec_focused_tab, spec_focused_pane};
use crate::fuzzy::{lowered, appears_in_order, places, is_ascii_text};

verus! {

/// What `refreshed` gives for a pane: something exactly when a tab of the
/// manifest still holds it, and then its fresh records with its id and time.
pub proof fn lemma_refreshed(p: Pane, m: Seq<(usize, Vec<PaneInfo>)>, tabs: Seq<TabInfo>)
    ensures
        refreshed(p, m, tabs) is Some <==> exists|e: int| 0 <= e < m.len() && holds_known_terminal(p.pane_info.id, tabs)(#[trigger] m[e]),
        refreshed(p, m, tabs) matches Some(q) ==> {
            &&& q.pane_info.id == p.pane_info.id
            &&& !q.pane_info.is_plugin
            &&& q.last_accessed == p.last_accessed
            &&& tabs.contains(q.tab_info)
            &&& exists|e: int| 0 <= e < m.len() && holds_known_terminal(q.pane_info.id, tabs)(#[trigger] m[e])
                && m[e].0 == q.tab_info.position && m[e].1@.contains(q.pane_info)
        },
{
    let pred = holds_known_terminal(p.pane_info.id, tabs);
    lemma_find_first(m, pred);
    if let Some(e) = find_first(m, pred) {
        let entry = m[e];
        lemma_find_first(entry.1@, terminal_with_id(p.pane_info.id));
        lemma_find_first(tabs, tab_at(entry.0));
        let k = find_first(entry.1@, terminal_with_id(p.pane_info.id))->0;
        let t = find_first(tabs, tab_at(entry.0))->0;
        assert(entry.1@.contains(entry.1@[k]));
        assert(tabs.contains(tabs[t]));
    }
}

/// A pane that no tab of the manifest holds any more is dropped from the
/// list, and a pane that one still holds is kept; every kept pane is a
/// terminal pane with the pane and tab records that the manifest now shows
/// (so renamed and moved panes and tabs propagate), and keeps the id and the
/// access time of a pane of the list.
pub proof fn law_closed_panes_dropped(panes: Seq<Pane>, m: Seq<(usize, Vec<PaneInfo>)>, tabs: Seq<TabInfo>)
    ensures
        forall|i: int| 0 <= i < panes.len() ==> (pane_ids(valid_panes(panes, m, tabs)).contains(
            (#[trigger] panes[i]).pane_info.id,
        ) <==> exists|e: int| 0 <= e < m.len() && holds_known_terminal(panes[i].pane_info.id, tabs)(#[trigger] m[e])),
        forall|j: int| 0 <= j < valid_panes(panes, m, tabs).len() ==> {
            let q = #[trigger] valid_panes(panes, m, tabs)[j];
            &&& !q.pane_info.is_plugin
            &&& tabs.contains(q.tab_info)
            &&& exists|e: int| 0 <= e < m.len() && holds_known_terminal(q.pane_info.id, tabs)(#[trigger] m[e])
                && m[e].0 == q.tab_info.position && m[e].1@.contains(q.pane_info)
            &&& exists|i: int| 0 <= i < panes.len() && (#[trigger] panes[i]).pane_info.id == q.pane_info.id
                && panes[i].last_accessed == q.last_accessed
        },
    decreases panes.len(),
{
    if panes.len() > 0 {
        let d = panes.drop_last();
        let last = panes.last();
        law_closed_panes_dropped(d, m, tabs);
        lemma_refreshed(last, m, tabs);
        let prev = valid_panes(d, m, tabs);
        let cur = valid_panes(panes, m, tabs);
        assert forall|j: int| 0 <= j < cur.len() implies {
            let q = #[trigger] cur[j];
            &&& !q.pane_info.is_plugin
            &&& tabs.contains(q.tab_info)
            &&& exists|e: int| 0 <= e < m.len() && holds_known_terminal(q.pane_info.id, tabs)(#[trigger] m[e])
                && m[e].0 == q.tab_info.position && m[e].1@.contains(q.pane_info)
            &&& exists|i: int| 0 <= i < panes.len() && (#[trigger] panes[i]).pane_info.id == q.pane_info.id
                && panes[i].last_accessed == q.last_accessed
        } by {
            if j < prev.len() {
                assert(cur[j] == prev[j]);
                let i = choose|i: int| 0 <= i < d.len() && (#[trigger] d[i]).pane_info.id == prev[j].pane_info.id
                    && d[i].last_accessed == prev[j].last_accessed;
                assert(panes[i] == d[i]);
            } else {
                assert(panes[panes.len() - 1] == last);
            }
        }
        assert forall|i: int| 0 <= i < panes.len() implies (pane_ids(cur).contains((#[trigger] panes[i]).pane_info.id)
            <==> exists|e: int| 0 <= e < m.len() && holds_known_terminal(panes[i].pane_info.id, tabs)(#[trigger] m[e])) by {
            let id = panes[i].pane_info.id;
            if pane_ids(cur).contains(id) {
                let j = choose|j: int| 0 <= j < pane_ids(cur).len() && pane_ids(cur)[j] == id;
                assert(cur[j].pane_info.id == id);
            }
            if exists|e: int| 0 <= e < m.len() && holds_known_terminal(id, tabs)(#[trigger] m[e]) {
                if i < d.len() {
                    assert(panes[i] == d[i]);
                    assert(pane_ids(prev).contains(id));
                    let j = choose|j: int| 0 <= j < pane_ids(prev).len() && pane_ids(prev)[j] == id;
                    assert(pane_ids(cur)[j] == id);
                } else {
                    assert(panes[i] == last);
                    let q = refreshed(last, m, tabs)->0;
                    assert(cur[cur.len() - 1] == q);
                    assert(pane_ids(cur)[cur.len() - 1] == id);
                }
            }
        }
    }
}


/// A restored pane is never one that is already taken: when the taken ids
/// have no repeats, neither do they together with the ids of the restored
/// panes.
pub proof fn law_restored_panes_are_new(pending: Seq<PaneBookmark>, m: Seq<(usize, Vec<PaneInfo>)>, tabs: Seq<TabInfo>, taken: Seq<u32>)
    requires
        taken.no_duplicates(),
    ensures
        (taken + pane_ids(match_bookmarks(pending, m, tabs, taken).0)).no_duplicates(),
    decreases pending.len(),
{
    if pending.len() > 0 {
        law_restored_panes_are_new(pending.drop_last(), m, tabs, taken);
        let prev = match_bookmarks(pending.drop_last(), m, tabs, taken);
        let ids = taken + pane_ids(prev.0);
        if let Some(p) = bookmark_match(pending.last(), m, tabs, ids) {
            let t = first_such(tabs, crate::persistence::tab_named(pending.last().tab_name@))->0;
            let ps = crate::model::manifest_get(m, t.position)->0;
            lemma_find_first(ps, free_terminal_titled(pending.last().pane_title@, ids));
            assert(!ids.contains(p.pane_info.id));
            assert(pane_ids(prev.0.push(p)) =~= pane_ids(prev.0).push(p.pane_info.id));
            assert(taken + pane_ids(prev.0.push(p)) =~= ids.push(p.pane_info.id));
            assert forall|a: int, b: int| 0 <= a < b < ids.len() + 1 implies ids.push(p.pane_info.id)[a] != ids.push(
                p.pane_info.id,
            )[b] by {
                if b == ids.len() {
                    assert(ids.contains(ids[a]));
                }
            }
        }
    }
}

/// After saving, the list counts as unchanged: the saved bookmarks carry the
/// panes' names.
pub proof fn law_saved_then_unchanged(v: StateView)
    requires
        v.session_name is Some,
    ensures
        bookmarks_names(saved(v).0.last_saved) == panes_names(saved(v).0.panes),
{
    assert(bookmarks_names(bookmarks_of(v.panes)) =~= panes_names(v.panes));
}

/// Moving the selection down and then up returns to the same entry, and so
/// does up then down; both keep the selection inside the displayed list.
pub proof fn law_up_undoes_down(v: StateView)
    requires
        v.selected < shown(v).len(),
        v.panes.len() <= usize::MAX,
    ensures
        selected_up(selected_down(v)) == v,
        selected_down(selected_up(v)) == v,
        selected_down(v).selected < shown(v).len(),
        selected_up(v).selected < shown(v).len(),
{
    lemma_shown_indices(v.panes, v.focused_pane, v.recent_sort, lowered(v.search_query));
    let len = shown(v).len() as int;
    assert(shown(selected_down(v)) == shown(v));
    assert(shown(selected_up(v)) == shown(v));
    let d = selected_down(v);
    let u = selected_up(v);
    if v.selected + 1 < len {
        assert((v.selected + 1) % len == v.selected + 1) by (nonlinear_arith)
            requires
                0 <= v.selected + 1 < len,
        ;
    } else {
        assert((v.selected + 1) % len == 0) by (nonlinear_arith)
            requires
                v.selected + 1 == len,
                len > 0,
        ;
    }
    if v.selected > 0 {
        assert((v.selected - 1 + 1) % len == v.selected) by (nonlinear_arith)
            requires
                0 <= v.selected < len,
        ;
    } else {
        assert((len - 1 + 1) % len == 0) by (nonlinear_arith)
            requires
                len > 0,
        ;
    }
    assert(selected_up(d).selected == v.selected);
    assert(selected_down(u).selected == v.selected);
    assert(selected_up(d) =~= v);
    assert(selected_down(u) =~= v);
}

/// A pane is displayed exactly when it passes the filters: in recency mode
/// the focused pane is hidden, and a search query must match the pane's
/// lowercased label in order; the displayed entries keep the list's order.
pub proof fn law_displayed_iff_shown(v: StateView)
    requires
        v.panes.len() <= usize::MAX,
    ensures
        forall|i: int| 0 <= i < v.panes.len() ==> (shown(v).contains(i as usize)
            <==> pane_shown(#[trigger] v.panes[i], v.focused_pane, v.recent_sort, lowered(v.search_query))),
        forall|s: int, t: int| 0 <= s < t < shown(v).len() ==> #[trigger] shown(v)[s] < #[trigger] shown(v)[t],
{
    lemma_displayed_iff_shown(v.panes, v.focused_pane, v.recent_sort, lowered(v.search_query));
    lemma_shown_indices(v.panes, v.focused_pane, v.recent_sort, lowered(v.search_query));
}

/// Pane `p` is the focused pane, which recency mode leaves out of the list.
pub open spec fn hidden_as_focused(v: StateView, p: Pane) -> bool {
    v.recent_sort && v.focused_pane is Some && v.focused_pane->0.pane_info.id == p.pane_info.id
}

/// With no search query, every pane is displayed except, in recency mode,
/// the focused one.
pub proof fn law_empty_query_shows_all(v: StateView)
    requires
        v.panes.len() <= usize::MAX,
        v.search_query.len() == 0,
    ensures
        forall|i: int| 0 <= i < v.panes.len() ==> (shown(v).contains(i as usize)
            <==> !hidden_as_focused(v, #[trigger] v.panes[i])),
{
    assert(lowered(v.search_query).len() == 0);
    law_displayed_iff_shown(v);
}

/// Characters placed in order keep their order when the needle is cut short.
proof fn lemma_prefix_appears(short: Seq<char>, long: Seq<char>, h: Seq<char>)
    requires
        short.is_prefix_of(long),
        appears_in_order(long, h),
    ensures
        appears_in_order(short, h),
{
    let f = choose|f: spec_fn(int) -> int| #[trigger] places(long, h, 0, 0, f);
    assert(places(short, h, 0, 0, f)) by {
        assert forall|i: int| 0 <= i < short.len() implies 0 <= #[trigger] f(i) < h.len() && h[f(i)] == short[i] by {
            assert(short[i] == long[i]);
        }
    }
}

/// Typing narrows the search: when the lowercased new query extends the
/// lowercased old one, with the panes, the focused pane and the mode
/// unchanged, every pane displayed under the new query is displayed under
/// the old one.
pub proof fn law_typing_narrows(before: StateView, after: StateView)
    requires
        before.panes.len() <= usize::MAX,
        after.panes == before.panes,
        after.focused_pane == before.focused_pane,
        after.recent_sort == before.recent_sort,
        lowered(before.search_query).is_prefix_of(lowered(after.search_query)),
    ensures
        forall|i: usize| #[trigger] shown(after).contains(i) ==> shown(before).contains(i),
{
    law_displayed_iff_shown(before);
    law_displayed_iff_shown(after);
    lemma_shown_indices(after.panes, after.focused_pane, after.recent_sort, lowered(after.search_query));
    let q1 = lowered(before.search_query);
    let q2 = lowered(after.search_query);
    assert forall|i: usize| #[trigger] shown(after).contains(i) implies shown(before).contains(i) by {
        let t = choose|t: int| 0 <= t < shown(after).len() && shown(after)[t] == i;
        let p = before.panes[i as int];
        assert(after.panes[i as int] == p);
        assert(pane_shown(p, after.focused_pane, after.recent_sort, q2));
        if q1.len() != 0 {
            lemma_prefix_appears(q1, q2, lowered(crate::text::pane_label(p)));
        }
        assert(pane_shown(p, before.focused_pane, before.recent_sort, q1));
    }
}

/// Typing one more character into an ASCII query never shows more panes:
/// with the panes, the focused pane and the mode unchanged, every pane
/// displayed after the character is appended was displayed before.
pub proof fn law_typing_ascii_narrows(before: StateView, after: StateView, c: char)
    requires
        before.panes.len() <= usize::MAX,
        after.panes == before.panes,
        after.focused_pane == before.focused_pane,
        after.recent_sort == before.recent_sort,
        after.search_query == before.search_query.push(c),
        is_ascii_text(after.search_query),
    ensures
        forall|i: usize| #[trigger] shown(after).contains(i) ==> shown(before).contains(i),
{
    let q = before.search_query;
    assert(is_ascii_text(q)) by {
        assert forall|i: int| 0 <= i < q.len() implies (#[trigger] q[i] as u32) < 128 by {
            assert(after.search_query[i] == q[i]);
        }
    }
    let l1 = lowered(q);
    let l2 = lowered(after.search_query);
    assert(l2.len() == l1.len() + 1);
    assert forall|i: int| 0 <= i < l1.len() implies #[trigger] l1[i] == l2[i] by {
        assert(after.search_query[i] == q[i]);
    }
    assert(l1.is_prefix_of(l2));
    law_typing_narrows(before, after);
}

proof fn lemma_displayed_iff_shown(panes: Seq<Pane>, f: Option<Pane>, recent: bool, q: Seq<char>)
    requires
        panes.len() <= usize::MAX,
    ensures
        forall|i: int| 0 <= i < panes.len() ==> (shown_indices(panes, f, recent, q).contains(i as usize)
            <==> pane_shown(#[trigger] panes[i], f, recent, q)),
    decreases panes.len(),
{
    if panes.len() > 0 {
        let d = panes.drop_last();
        lemma_displayed_iff_shown(d, f, recent, q);
        lemma_shown_indices(d, f, recent, q);
        let prev = shown_indices(d, f, recent, q);
        let cur = shown_indices(panes, f, recent, q);
        assert forall|i: int| 0 <= i < panes.len() implies (cur.contains(i as usize) <==> pane_shown(#[trigger] panes[i], f, recent, q)) by {
            if i < d.len() {
                assert(panes[i] == d[i]);
                if cur.contains(i as usize) {
                    let t = choose|t: int| 0 <= t < cur.len() && cur[t] == i as usize;
                    if t < prev.len() {
                        assert(prev.contains(i as usize));
                    }
                }
                if prev.contains(i as usize) {
                    let t = choose|t: int| 0 <= t < prev.len() && prev[t] == i as usize;
                    assert(cur[t] == i as usize);
                }
            } else {
                if cur.contains(i as usize) {
                    let t = choose|t: int| 0 <= t < cur.len() && cur[t] == i as usize;
                    if t < prev.len() {
                        assert(prev[t] < d.len());
                    }
                }
                if pane_shown(panes[i], f, recent, q) {
                    assert(cur[cur.len() - 1] == i as usize);
                }
            }
        }
    }
}

/// Pressing `a` outside search mode adds the focused pane, stamped with the
/// time of the key press, when the list does not track it yet; the list is
/// then ordered by the sort key (tab position, or most recent first in
/// recency mode) and the plugin hides. When it is tracked, only the hiding
/// happens.
pub proof fn law_add_focused_pane(v: StateView, now: u64)
    requires
        v.focused_pane is Some,
    ensures
        ({
            let f = v.focused_pane->0;
            let r = normal_key(v, Key::Char('a'), now);
            &&& r.1.last() == Action::HideSelf
            &&& r.2
            &&& if pane_ids(v.panes).contains(f.pane_info.id) {
                r.0 == v
            } else {
                &&& r.0.panes.to_multiset() == v.panes.push(Pane { last_accessed: now, ..f }).to_multiset()
                &&& r.0.panes.contains(Pane { last_accessed: now, ..f })
                &&& r.0.panes.len() == v.panes.len() + 1
                &&& keys_ascending(r.0.panes, v.recent_sort)
            }
        }),
{
    let f = v.focused_pane->0;
    let added = v.panes.push(Pane { last_accessed: now, ..f });
    lemma_sorted_by_key(added, v.recent_sort);
    let sorted = sorted_by_key(added, v.recent_sort);
    let r = normal_key(v, Key::Char('a'), now);
    broadcast use vstd::seq_lib::group_to_multiset_ensures;
    assert(added.contains(Pane { last_accessed: now, ..f })) by {
        assert(added[added.len() - 1] == Pane { last_accessed: now, ..f });
    }
    assert(sorted.to_multiset().count(Pane { last_accessed: now, ..f }) > 0);
}

/// Pressing `d` outside search mode removes the selected pane from the list;
/// the selection keeps its row, moving up only when that row is past the end
/// of the shorter list (and it is 0 when the list is empty).
pub proof fn law_delete_selected(v: StateView)
    requires
        selected_index(v) is Some,
        v.panes.len() <= usize::MAX,
    ensures
        normal_key(v, Key::Char('d'), 0).0.panes == v.panes.remove(selected_index(v)->0 as int),
        normal_key(v, Key::Char('d'), 0).0.panes.len() == v.panes.len() - 1,
        normal_key(v, Key::Char('d'), 0).0.selected == 0 || normal_key(v, Key::Char('d'), 0).0.selected < shown(
            normal_key(v, Key::Char('d'), 0).0,
        ).len(),
        ({
            let after = normal_key(v, Key::Char('d'), 0).0;
            let n = shown(after).len();
            &&& n == 0 ==> after.selected == 0
            &&& n > 0 && v.selected < n ==> after.selected == v.selected
            &&& n > 0 && v.selected >= n ==> after.selected == n - 1
        }),
{
    lemma_shown_indices(v.panes, v.focused_pane, v.recent_sort, lowered(v.search_query));
}

/// Jumping (Enter, or `l` outside search mode) focuses the selected pane and
/// hides the plugin, after saving; with nothing selected nothing happens.
pub proof fn law_enter_focuses_selected(v: StateView, now: u64)
    requires
        v.panes.len() <= usize::MAX,
    ensures
        ({
            let r = if v.search_mode {
                search_key(v, Key::Enter, now)
            } else {
                normal_key(v, Key::Enter, now)
            };
            match selected_index(v) {
                Some(i) => {
                    &&& r.1.len() >= 2
                    &&& r.1[r.1.len() - 2] == Action::HideSelf
                    &&& r.1[r.1.len() - 1] == Action::FocusTerminalPane(v.panes[i as int].pane_info.id)
                    &&& r.0.panes[i as int].last_accessed == now
                    &&& !r.0.search_mode
                },
                None => r.0 == v && r.1.len() == 0,
            }
        }),
{
    lemma_shown_indices(v.panes, v.focused_pane, v.recent_sort, lowered(v.search_query));
}


/// Every terminal pane of `ps` whose id is not excluded is among the new panes.
proof fn lemma_tab_new_panes_complete(ps: Seq<PaneInfo>, tab: TabInfo, exclude: Seq<u32>)
    ensures
        forall|i: int| 0 <= i < ps.len() && !(#[trigger] ps[i]).is_plugin && !exclude.contains(ps[i].id) ==> exists|j: int|
            0 <= j < tab_new_panes(ps, tab, exclude).len() && tab_new_panes(ps, tab, exclude)[j].pane_info == ps[i],
    decreases ps.len(),
{
    if ps.len() > 0 {
        let d = ps.drop_last();
        lemma_tab_new_panes_complete(d, tab, exclude);
        let prev = tab_new_panes(d, tab, exclude);
        let cur = tab_new_panes(ps, tab, exclude);
        assert forall|i: int| 0 <= i < ps.len() && !(#[trigger] ps[i]).is_plugin && !exclude.contains(ps[i].id) implies exists|j: int|
            0 <= j < cur.len() && cur[j].pane_info == ps[i] by {
            if i < d.len() {
                assert(ps[i] == d[i]);
                let j = choose|j: int| 0 <= j < prev.len() && prev[j].pane_info == d[i];
                assert(cur[j] == prev[j]);
            } else {
                assert(cur[cur.len() - 1].pane_info == ps[i]);
            }
        }
    }
}

/// Every terminal pane of a tab that `tabs` describes, whose id is not
/// excluded, is among the gathered panes.
proof fn lemma_new_terminal_panes_complete(m: Seq<(usize, Vec<PaneInfo>)>, tabs: Seq<TabInfo>, exclude: Seq<u32>)
    ensures
        forall|e: int, i: int| 0 <= e < m.len() && 0 <= i < m[e].1@.len() && !(#[trigger] m[e].1@[i]).is_plugin
            && !exclude.contains(m[e].1@[i].id) && first_such(tabs, tab_at(m[e].0)) is Some ==> exists|j: int|
            0 <= j < new_terminal_panes(m, tabs, exclude).len() && new_terminal_panes(m, tabs, exclude)[j].pane_info == m[e].1@[i],
    decreases m.len(),
{
    if m.len() > 0 {
        let d = m.drop_last();
        lemma_new_terminal_panes_complete(d, tabs, exclude);
        let prev = new_terminal_panes(d, tabs, exclude);
        let cur = new_terminal_panes(m, tabs, exclude);
        let le = m.len() - 1;
        assert(m.last() == m[le]);
        lemma_tab_new_panes_complete(m[le].1@, first_such(tabs, tab_at(m[le].0))->0, exclude);
        assert forall|e: int, i: int| 0 <= e < m.len() && 0 <= i < m[e].1@.len() && !(#[trigger] m[e].1@[i]).is_plugin
            && !exclude.contains(m[e].1@[i].id) && first_such(tabs, tab_at(m[e].0)) is Some implies exists|j: int|
            0 <= j < cur.len() && cur[j].pane_info == m[e].1@[i] by {
            if e < le {
                assert(m[e] == d[e]);
                assert(d[e].1@[i] == m[e].1@[i]);
                let j = choose|j: int| 0 <= j < prev.len() && prev[j].pane_info == d[e].1@[i];
                assert(cur[j] == prev[j]);
            } else {
                let added = tab_new_panes(m[le].1@, first_such(tabs, tab_at(m[le].0))->0, exclude);
                assert(cur == prev + added);
                let j = choose|j: int| 0 <= j < added.len() && added[j].pane_info == m[le].1@[i];
                assert(cur[prev.len() + j] == added[j]);
            }
        }
    }
}

/// Pressing `A` outside search mode tracks every terminal pane of every tab
/// of the manifest (those already tracked stay), orders the list, and hides
/// the plugin; no pane is dropped.
pub proof fn law_add_all_panes(v: StateView, now: u64)
    requires
        v.pane_manifest is Some,
        v.tab_info is Some,
    ensures
        ({
            let m = v.pane_manifest->0;
            let tabs = v.tab_info->0;
            let r = normal_key(v, Key::Char('A'), now);
            &&& forall|e: int, i: int| 0 <= e < m.len() && 0 <= i < m[e].1@.len() && !(#[trigger] m[e].1@[i]).is_plugin
                && first_such(tabs, tab_at(m[e].0)) is Some ==> pane_ids(r.0.panes).contains(m[e].1@[i].id)
            &&& forall|k: int| 0 <= k < v.panes.len() ==> r.0.panes.contains(#[trigger] v.panes[k])
            &&& keys_ascending(r.0.panes, v.recent_sort)
            &&& r.1.last() == Action::HideSelf
        }),
{
    broadcast use vstd::seq_lib::group_to_multiset_ensures;
    let m = v.pane_manifest->0;
    let tabs = v.tab_info->0;
    let added = new_terminal_panes(m, tabs, pane_ids(v.panes));
    let all = v.panes + added;
    lemma_new_terminal_panes_complete(m, tabs, pane_ids(v.panes));
    lemma_sorted_by_key(all, v.recent_sort);
    let sorted = sorted_by_key(all, v.recent_sort);
    assert forall|x: Pane| all.contains(x) implies sorted.contains(x) by {
        assert(all.to_multiset().count(x) > 0);
    }
    assert forall|k: int| 0 <= k < v.panes.len() implies sorted.contains(#[trigger] v.panes[k]) by {
        assert(all[k] == v.panes[k]);
    }
    assert forall|e: int, i: int| 0 <= e < m.len() && 0 <= i < m[e].1@.len() && !(#[trigger] m[e].1@[i]).is_plugin
        && first_such(tabs, tab_at(m[e].0)) is Some implies pane_ids(sorted).contains(m[e].1@[i].id) by {
        let id = m[e].1@[i].id;
        let x = if pane_ids(v.panes).contains(id) {
            let k = choose|k: int| 0 <= k < pane_ids(v.panes).len() && pane_ids(v.panes)[k] == id;
            assert(all[k] == v.panes[k]);
            v.panes[k]
        } else {
            let j = choose|j: int| 0 <= j < added.len() && added[j].pane_info == m[e].1@[i];
            assert(all[v.panes.len() + j] == added[j]);
            added[j]
        };
        assert(all.contains(x));
        assert(sorted.contains(x));
        let t = choose|t: int| 0 <= t < sorted.len() && sorted[t] == x;
        assert(pane_ids(sorted)[t] == id);
    }
}

/// In recency mode, once the tracker's times are loaded, reconciling (when a
/// focused pane is found) leaves the list ordered from the most recently
/// accessed pane down, with the selection on the first displayed entry
/// (the focused pane itself is not displayed).
pub proof fn law_recent_order(v: StateView)
    requires
        v.recent_sort,
        v.timestamps_loaded,
        v.pane_manifest is Some,
        v.tab_info is Some,
        spec_focused_tab(v.tab_info->0) is Some,
        spec_focused_pane(spec_focused_tab(v.tab_info->0)->0.position, v.pane_manifest->0) is Some,
    ensures
        forall|i: int, j: int| 0 <= i < j < panes_updated(v).0.panes.len() ==> (#[trigger] panes_updated(v).0.panes[i]).last_accessed
            >= (#[trigger] panes_updated(v).0.panes[j]).last_accessed,
        panes_updated(v).0.selected == 0,
{
    let m = v.pane_manifest->0;
    let tabs = v.tab_info->0;
    let panes1 = valid_panes(v.panes, m, tabs);
    let mb = match_bookmarks(v.pending, m, tabs, pane_ids(panes1));
    let panes2 = if mb.0.len() > 0 { sorted_by_key(panes1 + mb.0, v.recent_sort) } else { panes1 };
    let added = panes2 + crate::state::stamped(new_terminal_panes(m, tabs, pane_ids(panes2)), v.timestamps);
    lemma_sorted_by_key(added.map_values(|p: Pane| crate::state::refreshed_time(p, v.timestamps)), true);
    let r = panes_updated(v).0.panes;
    assert(r == with_worker_times(panes2, m, tabs, v.timestamps));
    assert forall|i: int, j: int| 0 <= i < j < r.len() implies (#[trigger] r[i]).last_accessed >= (#[trigger] r[j]).last_accessed by {
        assert(crate::sort::sort_key(r[i], true) <= crate::sort::sort_key(r[j], true));
    }
}


/// In search mode, typing appends to the query and selects the first entry,
/// Backspace deletes the last character and leaves search mode once the
/// query is empty, and Esc leaves search mode with an empty query; none of
/// them touches the list.
pub proof fn law_search_keys(v: StateView, now: u64)
    requires
        v.search_mode,
    ensures
        !search_key(v, Key::Esc, now).0.search_mode,
        search_key(v, Key::Esc, now).0.search_query.len() == 0,
        search_key(v, Key::Esc, now).0.panes == v.panes,
        forall|c: char| #![trigger search_key(v, Key::Char(c), now)] search_key(v, Key::Char(c), now).0.search_query == v.search_query.push(c)
            && search_key(v, Key::Char(c), now).0.selected == 0 && search_key(v, Key::Char(c), now).0.search_mode
            && search_key(v, Key::Char(c), now).0.panes == v.panes,
        search_key(v, Key::Backspace, now).0.search_query == (if v.search_query.len() > 0 {
            v.search_query.drop_last()
        } else {
            v.search_query
        }),
        search_key(v, Key::Backspace, now).0.search_mode == (search_key(v, Key::Backspace, now).0.search_query.len() > 0),
        search_key(v, Key::Backspace, now).0.panes == v.panes,
{
}

/// The title line of the pane list counts the entries drawn below it:
/// outside search mode, every plan that rendering may return has the title
/// `==== N panes ====` with `N` the number of lines listed.
pub proof fn law_title_counts_lines(v: StateView, rows: usize, cols: usize, r: RenderPlan)
    requires
        plan_ok(v, rows, cols, r),
        !v.search_mode,
    ensures
        r.title@ == "==== "@ + decimal(r.lines@.len() as nat) + " panes ===="@,
{
}

/// Merging the tracker's access times keeps every tracked pane, with its
/// access time raised to the time the tracker recorded for it when that is
/// later: each pane ends with the larger of its own time and the recorded one.
pub proof fn law_merge_keeps_latest_time(panes: Seq<Pane>, m: Seq<(usize, Vec<PaneInfo>)>, tabs: Seq<TabInfo>, entries: Seq<TimestampEntry>)
    ensures
        forall|k: int| 0 <= k < panes.len() ==> {
            let p = #[trigger] panes[k];
            let t = timestamp_for(entries, p.pane_info.id, p.tab_info.name@, p.pane_info.title@);
            with_worker_times(panes, m, tabs, entries).contains(
                Pane { last_accessed: if t > p.last_accessed { t } else { p.last_accessed }, ..p })
        },
{
    broadcast use vstd::seq_lib::group_to_multiset_ensures;
    let added = panes + crate::state::stamped(new_terminal_panes(m, tabs, pane_ids(panes)), entries);
    let mapped = added.map_values(|p: Pane| crate::state::refreshed_time(p, entries));
    lemma_sorted_by_key(mapped, true);
    let r = with_worker_times(panes, m, tabs, entries);
    assert forall|k: int| 0 <= k < panes.len() implies {
        let p = #[trigger] panes[k];
        let t = timestamp_for(entries, p.pane_info.id, p.tab_info.name@, p.pane_info.title@);
        r.contains(Pane { last_accessed: if t > p.last_accessed { t } else { p.last_accessed }, ..p })
    } by {
        let p = panes[k];
        assert(added[k] == p);
        let x = mapped[k];
        assert(mapped.contains(x));
        assert(mapped.to_multiset().count(x) > 0);
        assert(r.to_multiset().count(x) > 0);
    }
}

} // verus!
