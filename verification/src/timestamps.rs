//! Last-access times of panes, written by the background tracker and read by
//! the switcher in recency mode.
use vstd::prelude::*;
use crate::find::{find_first, first_such, lemma_find_first, lemma_find_first_is, lemma_find_first_none};

verus! {

/// When a pane was last focused. Entries written before pane ids were
/// recorded carry the id 0 and are identified by tab name and title alone.
#[derive(Clone, Debug, PartialEq, Eq)]
pub struct TimestampEntry {
    pub tab_name: String,
    pub pane_title: String,
    pub pane_id: u32,
    pub last_accessed: u64,
}

/// All recorded access times.
#[derive(Clone, Debug, PartialEq, Eq, Default)]
pub struct TimestampMap {
    pub entries: Vec<TimestampEntry>,
}

impl TimestampEntry {
    /// A field-by-field copy.
    pub fn duplicate(&self) -> (r: TimestampEntry)
        ensures
            r == *self,
    {
        TimestampEntry {
            tab_name: self.tab_name.clone(),
            pane_title: self.pane_title.clone(),
            pane_id: self.pane_id,
            last_accessed: self.last_accessed,
        }
    }
}

/// An entry that describes the pane with id `id`, or the pane titled
/// `title` in the tab named `tab`.
pub open spec fn entry_for(id: u32, tab: Seq<char>, title: Seq<char>) -> spec_fn(TimestampEntry) -> bool {
    |e: TimestampEntry| e.pane_id == id || (e.tab_name@ == tab && e.pane_title@ == title)
}

/// The access time that the first matching entry records, or 0.
pub open spec fn timestamp_for(entries: Seq<TimestampEntry>, id: u32, tab: Seq<char>, title: Seq<char>) -> u64 {
    match first_such(entries, entry_for(id, tab, title)) {
        Some(e) => e.last_accessed,
        None => 0,
    }
}

/// Looks up the access time of a pane by id, or else by tab name and title;
/// 0 when no entry describes it.
pub fn lookup_timestamp(map: &TimestampMap, id: u32, tab: &String, title: &String) -> (r: u64)
    ensures
        r == timestamp_for(map.entries@, id, tab@, title@),
{
    let ghost pred = entry_for(id, tab@, title@);
    let mut i: usize = 0;
    while i < map.entries.len()
        invariant
            i <= map.entries.len(),
            pred == entry_for(id, tab@, title@),
            forall|j: int| 0 <= j < i ==> !pred(#[trigger] map.entries@[j]),
        decreases map.entries.len() - i,
    {
        let e = &map.entries[i];
        if e.pane_id == id || (e.tab_name == *tab && e.pane_title == *title) {
            proof {
                lemma_find_first_is(map.entries@, pred, i as int);
            }
            return e.last_accessed;
        }
        i += 1;
    }
    proof {
        lemma_find_first_none(map.entries@, pred);
    }
    0
}

/// An entry for the pane with the nonzero id `id`.
pub open spec fn entry_with_id(id: u32) -> spec_fn(TimestampEntry) -> bool {
    |e: TimestampEntry| e.pane_id != 0 && e.pane_id == id
}

/// Not a legacy (id 0) entry for the pane titled `title` in tab `tab`.
pub open spec fn not_legacy_for(tab: Seq<char>, title: Seq<char>) -> spec_fn(TimestampEntry) -> bool {
    |e: TimestampEntry| !(e.pane_id == 0 && e.tab_name@ == tab && e.pane_title@ == title)
}

/// The entries after recording that the pane `id`, titled `title` in tab
/// `tab`, was focused at `ts`: the first entry with that (nonzero) id takes
/// the new time and names; without one, legacy entries with those names are
/// dropped and a new entry is appended.
pub open spec fn recorded(entries: Seq<TimestampEntry>, id: u32, tab: String, title: String, ts: u64) -> Seq<TimestampEntry> {
    match find_first(entries, entry_with_id(id)) {
        Some(i) => entries.update(
            i,
            TimestampEntry { tab_name: tab, pane_title: title, pane_id: entries[i].pane_id, last_accessed: ts },
        ),
        None => entries.filter(not_legacy_for(tab@, title@)).push(
            TimestampEntry { tab_name: tab, pane_title: title, pane_id: id, last_accessed: ts },
        ),
    }
}

impl TimestampMap {
    /// No entries.
    pub fn new() -> (r: TimestampMap)
        ensures
            r.entries@.len() == 0,
    {
        TimestampMap { entries: Vec::new() }
    }

    /// Records that the pane `id`, titled `title` in tab `tab`, was focused
    /// at time `ts`.
    pub fn record_focus(&mut self, id: u32, tab: &String, title: &String, ts: u64)
        ensures
            final(self).entries@ == recorded(old(self).entries@, id, *tab, *title, ts),
    {
        let ghost pred = entry_with_id(id);
        let mut i: usize = 0;
        while i < self.entries.len()
            invariant
                i <= self.entries.len(),
                self.entries@ == old(self).entries@,
                pred == entry_with_id(id),
                forall|j: int| 0 <= j < i ==> !pred(#[trigger] self.entries@[j]),
            decreases self.entries.len() - i,
        {
            if self.entries[i].pane_id != 0 && self.entries[i].pane_id == id {
                proof {
                    lemma_find_first_is(self.entries@, pred, i as int);
                }
                let old_id = self.entries[i].pane_id;
                self.entries.set(
                    i,
                    TimestampEntry { tab_name: tab.clone(), pane_title: title.clone(), pane_id: old_id, last_accessed: ts },
                );
                return;
            }
            i += 1;
        }
        proof {
            lemma_find_first_none(self.entries@, pred);
        }
        let ghost entries = self.entries@;
        let ghost keep = not_legacy_for(tab@, title@);
        let mut kept: Vec<TimestampEntry> = Vec::new();
        let mut j: usize = 0;
        while j < self.entries.len()
            invariant
                j <= self.entries.len(),
                entries == self.entries@,
                entries == old(self).entries@,
                keep == not_legacy_for(tab@, title@),
                kept@ == entries.take(j as int).filter(keep),
            decreases self.entries.len() - j,
        {
            proof {
                reveal(Seq::filter);
                assert(entries.take(j + 1).drop_last() =~= entries.take(j as int));
            }
            let e = &self.entries[j];
            if !(e.pane_id == 0 && e.tab_name == *tab && e.pane_title == *title) {
                kept.push(e.duplicate());
            }
            j += 1;
        }
        assert(entries.take(j as int) =~= entries);
        kept.push(TimestampEntry { tab_name: tab.clone(), pane_title: title.clone(), pane_id: id, last_accessed: ts });
        self.entries = kept;
    }
}

/// After recording a focus, an entry holds the pane's names and the new time,
/// under the pane's id (or under the id of the entry that already had it).
pub proof fn law_record_focus_holds_entry(entries: Seq<TimestampEntry>, id: u32, tab: String, title: String, ts: u64)
    ensures
        exists|i: int| 0 <= i < recorded(entries, id, tab, title, ts).len() && {
            let e = #[trigger] recorded(entries, id, tab, title, ts)[i];
            &&& e.pane_id == id
            &&& e.tab_name == tab
            &&& e.pane_title == title
            &&& e.last_accessed == ts
        },
        recorded(entries, id, tab, title, ts).len() <= entries.len() + 1,
{
    crate::find::lemma_find_first(entries, entry_with_id(id));
    let r = recorded(entries, id, tab, title, ts);
    match find_first(entries, entry_with_id(id)) {
        Some(i) => {
            assert(r[i].pane_id == id);
        },
        None => {
            entries.lemma_filter_len(not_legacy_for(tab@, title@));
            assert(r[r.len() - 1].pane_id == id);
        },
    }
}


/// An entry written before the one that recording a focus writes, and that
/// a lookup of the pane finds first: with an entry for the pane's (nonzero)
/// id, an earlier entry with the pane's names; without one, any entry that
/// survives the clean-up and describes the pane.
pub open spec fn shadowed(entries: Seq<TimestampEntry>, id: u32, tab: Seq<char>, title: Seq<char>) -> bool {
    match find_first(entries, entry_with_id(id)) {
        Some(i) => exists|j: int| 0 <= j < i && (#[trigger] entries[j]).tab_name@ == tab && entries[j].pane_title@ == title,
        None => exists|j: int| 0 <= j < entries.len() && not_legacy_for(tab, title)(#[trigger] entries[j])
            && entry_for(id, tab, title)(entries[j]),
    }
}

/// Reading back a recorded focus: after recording that the pane `id`,
/// titled `title` in tab `tab`, was focused at `ts`, a lookup of that pane
/// finds the entry just written exactly when no earlier entry shadows it,
/// and then it reads `ts`.
pub proof fn law_lookup_after_record(entries: Seq<TimestampEntry>, id: u32, tab: String, title: String, ts: u64)
    ensures
        (first_such(recorded(entries, id, tab, title, ts), entry_for(id, tab@, title@))
            == Some(TimestampEntry { tab_name: tab, pane_title: title, pane_id: id, last_accessed: ts }))
            <==> !shadowed(entries, id, tab@, title@),
        !shadowed(entries, id, tab@, title@) ==> timestamp_for(recorded(entries, id, tab, title, ts), id, tab@, title@) == ts,
{
    let written = TimestampEntry { tab_name: tab, pane_title: title, pane_id: id, last_accessed: ts };
    let pred = entry_for(id, tab@, title@);
    let r = recorded(entries, id, tab, title, ts);
    lemma_find_first(entries, entry_with_id(id));
    lemma_find_first(r, pred);
    match find_first(entries, entry_with_id(id)) {
        Some(i) => {
            assert(r[i] == written);
            if shadowed(entries, id, tab@, title@) {
                let j = choose|j: int| 0 <= j < i && (#[trigger] entries[j]).tab_name@ == tab@ && entries[j].pane_title@ == title@;
                assert(r[j] == entries[j]);
                assert(pred(r[j]));
                let k = find_first(r, pred)->0;
                assert(k <= j);
                assert(r[k] == entries[k]);
                assert(!entry_with_id(id)(entries[k]));
            } else {
                assert forall|j: int| 0 <= j < i implies !pred(#[trigger] r[j]) by {
                    assert(r[j] == entries[j]);
                    assert(!entry_with_id(id)(entries[j]));
                }
                assert(pred(r[i]));
                lemma_find_first_is(r, pred, i);
            }
        },
        None => {
            let keep = not_legacy_for(tab@, title@);
            let kept = entries.filter(keep);
            assert(r == kept.push(written));
            entries.filter_lemma(keep);
            let n = kept.len() as int;
            assert(r[n] == written);
            if shadowed(entries, id, tab@, title@) {
                let j = choose|j: int| 0 <= j < entries.len() && keep(#[trigger] entries[j]) && pred(entries[j]);
                entries.lemma_filter_contains(keep, j);
                let t = choose|t: int| 0 <= t < kept.len() && kept[t] == entries[j];
                assert(r[t] == kept[t]);
                let k = find_first(r, pred)->0;
                assert(k <= t);
                assert(r[k] == kept[k]);
                assert(kept.contains(kept[k]));
                entries.lemma_filter_contains_rev(keep, kept[k]);
                let j2 = choose|j2: int| 0 <= j2 < entries.len() && entries[j2] == kept[k];
                assert(!entry_with_id(id)(entries[j2]));
            } else {
                assert forall|t: int| 0 <= t < n implies !pred(#[trigger] r[t]) by {
                    assert(r[t] == kept[t]);
                    assert(kept.contains(kept[t]));
                    entries.lemma_filter_contains_rev(keep, kept[t]);
                    let j2 = choose|j2: int| 0 <= j2 < entries.len() && entries[j2] == kept[t];
                    assert(keep(entries[j2]));
                }
                lemma_find_first_is(r, pred, n);
            }
        },
    }
}

} // verus!
