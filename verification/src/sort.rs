//! Stable ordering of the tracked panes, either by tab position or by recency.
use vstd::prelude::*;
use crate::model::Pane;

verus! {

/// The key by which panes are ordered, ascending: the tab position, or in
/// recency mode the negated last-access time (most recent first).
pub open spec fn sort_key(p: Pane, recent: bool) -> int {
    if recent {
        -(p.last_accessed as int)
    } else {
        p.tab_info.position as int
    }
}

/// Inserts `x` into `s` after every trailing element whose key is greater
/// than that of `x`.
pub open spec fn insert_by_key(s: Seq<Pane>, x: Pane, recent: bool) -> Seq<Pane>
    decreases s.len(),
{
    if s.len() == 0 {
        seq![x]
    } else if sort_key(s.last(), recent) <= sort_key(x, recent) {
        s.push(x)
    } else {
        insert_by_key(s.drop_last(), x, recent).push(s.last())
    }
}

/// `s` stably ordered by `sort_key`.
pub open spec fn sorted_by_key(s: Seq<Pane>, recent: bool) -> Seq<Pane>
    decreases s.len(),
{
    if s.len() == 0 {
        s
    } else {
        insert_by_key(sorted_by_key(s.drop_last(), recent), s.last(), recent)
    }
}

/// Keys never decrease along `s`.
pub open spec fn keys_ascending(s: Seq<Pane>, recent: bool) -> bool {
    forall|i: int, j: int| 0 <= i < j < s.len() ==> sort_key(#[trigger] s[i], recent) <= sort_key(#[trigger] s[j], recent)
}

/// The panes of `s` whose key is `k`.
pub open spec fn with_key(k: int, recent: bool) -> spec_fn(Pane) -> bool {
    |p: Pane| sort_key(p, recent) == k
}

/// Where the scan stops is where `insert_by_key` puts the new element.
proof fn lemma_insert_at(s: Seq<Pane>, x: Pane, recent: bool, j: int)
    requires
        0 <= j <= s.len(),
        forall|t: int| j <= t < s.len() ==> sort_key(#[trigger] s[t], recent) > sort_key(x, recent),
        j > 0 ==> sort_key(s[j - 1], recent) <= sort_key(x, recent),
    ensures
        insert_by_key(s, x, recent) == s.take(j) + seq![x] + s.skip(j),
    decreases s.len(),
{
    if s.len() == j {
        assert(s.take(j) + seq![x] + s.skip(j) =~= s.push(x));
    } else {
        lemma_insert_at(s.drop_last(), x, recent, j);
        assert(s.take(j) + seq![x] + s.skip(j) =~= (s.drop_last().take(j) + seq![x] + s.drop_last().skip(j)).push(s.last()));
    }
}

/// Inserting keeps keys ascending, adds exactly `x`, and puts `x` after
/// every element with the same key.
proof fn lemma_insert_props(s: Seq<Pane>, x: Pane, recent: bool)
    requires
        keys_ascending(s, recent),
    ensures
        keys_ascending(insert_by_key(s, x, recent), recent),
        insert_by_key(s, x, recent).to_multiset() == s.to_multiset().insert(x),
        insert_by_key(s, x, recent).len() == s.len() + 1,
        forall|k: int| #[trigger] insert_by_key(s, x, recent).filter(with_key(k, recent))
            == if sort_key(x, recent) == k { s.filter(with_key(k, recent)).push(x) } else { s.filter(with_key(k, recent)) },
    decreases s.len(),
{
    broadcast use vstd::seq_lib::group_to_multiset_ensures;
    reveal(Seq::filter);
    if s.len() == 0 {
        assert forall|k: int| #[trigger] insert_by_key(s, x, recent).filter(with_key(k, recent))
            == if sort_key(x, recent) == k { s.filter(with_key(k, recent)).push(x) } else { s.filter(with_key(k, recent)) } by {
            assert(seq![x].drop_last() =~= s);
        }
    } else if sort_key(s.last(), recent) <= sort_key(x, recent) {
        assert forall|k: int| #[trigger] insert_by_key(s, x, recent).filter(with_key(k, recent))
            == if sort_key(x, recent) == k { s.filter(with_key(k, recent)).push(x) } else { s.filter(with_key(k, recent)) } by {
            assert(s.push(x).drop_last() =~= s);
        }
        assert forall|i: int, j: int| 0 <= i < j < s.len() + 1 implies
            sort_key(#[trigger] s.push(x)[i], recent) <= sort_key(#[trigger] s.push(x)[j], recent) by {
            if j == s.len() && i < s.len() - 1 {
                assert(sort_key(s[i], recent) <= sort_key(s[s.len() - 1], recent));
            }
        }
    } else {
        let r = insert_by_key(s.drop_last(), x, recent);
        lemma_insert_props(s.drop_last(), x, recent);
        assert(s =~= s.drop_last().push(s.last()));
        assert(r.push(s.last()).drop_last() =~= r);
        assert forall|i: int, j: int| 0 <= i < j < r.len() + 1 implies
            sort_key(#[trigger] r.push(s.last())[i], recent) <= sort_key(#[trigger] r.push(s.last())[j], recent) by {
            if j == r.len() {
                // every element of r is an element of s.drop_last() or x
                assert(r.to_multiset().contains(r[i]));
                assert(r.contains(r[i]));
                if r[i] != x {
                    assert(s.drop_last().to_multiset().contains(r[i]));
                    let t = choose|t: int| 0 <= t < s.drop_last().len() && s.drop_last()[t] == r[i];
                    assert(s[t] == r[i]);
                    assert(sort_key(s[t], recent) <= sort_key(s[s.len() - 1], recent));
                }
            }
        }
        assert forall|k: int| #[trigger] insert_by_key(s, x, recent).filter(with_key(k, recent))
            == if sort_key(x, recent) == k { s.filter(with_key(k, recent)).push(x) } else { s.filter(with_key(k, recent)) } by {
            let p = with_key(k, recent);
            assert(r.push(s.last()).filter(p) == if p(s.last()) { r.filter(p).push(s.last()) } else { r.filter(p) });
            assert(s.filter(p) == if p(s.last()) { s.drop_last().filter(p).push(s.last()) } else { s.drop_last().filter(p) });
            if sort_key(x, recent) == k && p(s.last()) {
                assert(false);
            }
        }
    }
}

/// Ordering by key yields ascending keys, the same panes, and for every key
/// the panes with that key in the order they had (a stable sort).
pub proof fn lemma_sorted_by_key(s: Seq<Pane>, recent: bool)
    ensures
        keys_ascending(sorted_by_key(s, recent), recent),
        sorted_by_key(s, recent).to_multiset() == s.to_multiset(),
        sorted_by_key(s, recent).len() == s.len(),
        forall|k: int| #[trigger] sorted_by_key(s, recent).filter(with_key(k, recent)) == s.filter(with_key(k, recent)),
    decreases s.len(),
{
    broadcast use vstd::seq_lib::group_to_multiset_ensures;
    reveal(Seq::filter);
    if s.len() > 0 {
        lemma_sorted_by_key(s.drop_last(), recent);
        lemma_insert_props(sorted_by_key(s.drop_last(), recent), s.last(), recent);
        assert(s =~= s.drop_last().push(s.last()));
        assert forall|k: int| #[trigger] sorted_by_key(s, recent).filter(with_key(k, recent)) == s.filter(with_key(k, recent)) by {
            assert(s.filter(with_key(k, recent)) == if with_key(k, recent)(s.last()) {
                s.drop_last().filter(with_key(k, recent)).push(s.last())
            } else {
                s.drop_last().filter(with_key(k, recent))
            });
        }
    }
}

/// Whether `a` goes strictly after `b`.
fn key_greater(a: &Pane, b: &Pane, recent: bool) -> (r: bool)
    ensures
        r == (sort_key(*a, recent) > sort_key(*b, recent)),
{
    if recent {
        a.last_accessed < b.last_accessed
    } else {
        a.tab_info.position > b.tab_info.position
    }
}

/// Stably orders `panes` by tab position, or by most recent access first.
pub fn sort_by_key(panes: &mut Vec<Pane>, recent: bool)
    ensures
        final(panes)@ == sorted_by_key(old(panes)@, recent),
{
    let ghost orig = panes@;
    let n = panes.len();
    let mut i: usize = 0;
    assert(orig.take(0) =~= Seq::<Pane>::empty());
    while i < n
        invariant
            n == orig.len(),
            panes@.len() == n,
            i <= n,
            panes@.take(i as int) == sorted_by_key(orig.take(i as int), recent),
            panes@.skip(i as int) == orig.skip(i as int),
        decreases n - i,
    {
        let ghost before = panes@;
        let x = panes.remove(i);
        assert(x == orig[i as int]) by {
            assert(before.skip(i as int)[0] == before[i as int]);
        }
        let ghost prefix = before.take(i as int);
        let mut j: usize = i;
        while j > 0 && key_greater(&panes[j - 1], &x, recent)
            invariant
                panes@ == before.remove(i as int),
                prefix == before.take(i as int),
                j <= i < before.len(),
                forall|t: int| j <= t < i ==> sort_key(#[trigger] prefix[t], recent) > sort_key(x, recent),
            decreases j,
        {
            assert(panes@[j - 1] == prefix[j - 1]);
            j -= 1;
        }
        proof {
            if j > 0 {
                assert(panes@[j - 1] == prefix[j - 1]);
            }
            lemma_insert_at(prefix, x, recent, j as int);
        }
        panes.insert(j, x);
        proof {
            assert(orig.take(i + 1).drop_last() =~= orig.take(i as int));
            assert(orig.take(i + 1).last() == orig[i as int]);
            assert(panes@.take(i + 1) =~= prefix.take(j as int) + seq![x] + prefix.skip(j as int));
            assert(panes@.skip(i + 1) =~= orig.skip(i + 1)) by {
                assert(before.skip(i as int) == orig.skip(i as int));
                assert forall|t: int| 0 <= t < panes@.len() - (i + 1) implies #[trigger] panes@.skip(i + 1)[t] == orig.skip(i + 1)[t] by {
                    assert(before.skip(i as int)[t + 1] == orig.skip(i as int)[t + 1]);
                }
            }
        }
        i += 1;
    }
    assert(orig.take(n as int) =~= orig);
    assert(panes@.take(n as int) =~= panes@);
}

} // verus!
