//! Pending deadlines kept as an association list with distinct keys, and
//! the map it stands for. Both debounce queues store their bookkeeping this
//! way; the lemmas here relate list edits to map edits.

use vstd::prelude::*;

verus! {

/// Keys are pairwise distinct.
pub open spec fn distinct_keys<K, V>(s: Seq<(K, V)>) -> bool {
    forall|i: int, j: int| 0 <= i < j < s.len() ==> #[trigger] s[i].0 != #[trigger] s[j].0
}

/// The map an association list stands for (a later entry wins, which never
/// matters while keys are distinct).
pub open spec fn assoc_map<K, V>(s: Seq<(K, V)>) -> Map<K, V>
    decreases s.len(),
{
    if s.len() == 0 {
        Map::empty()
    } else {
        assoc_map(s.drop_last()).insert(s.last().0, s.last().1)
    }
}

/// Entries whose deadline is still in the future at `now`, in list order.
pub open spec fn pending_after<K>(s: Seq<(K, u64)>, now: u64) -> Seq<(K, u64)>
    decreases s.len(),
{
    if s.len() == 0 {
        Seq::empty()
    } else if s.last().1 > now {
        pending_after(s.drop_last(), now).push(s.last())
    } else {
        pending_after(s.drop_last(), now)
    }
}

/// Keys whose deadline has passed at `now`, in list order.
pub open spec fn due_keys<K>(s: Seq<(K, u64)>, now: u64) -> Seq<K>
    decreases s.len(),
{
    if s.len() == 0 {
        Seq::empty()
    } else if s.last().1 <= now {
        due_keys(s.drop_last(), now).push(s.last().0)
    } else {
        due_keys(s.drop_last(), now)
    }
}

/// The queue after a signal for `k` whose fresh deadline would be
/// `deadline`: a pending key keeps its deadline.
pub open spec fn after_signal<K>(m: Map<K, u64>, k: K, deadline: u64) -> Map<K, u64> {
    if m.contains_key(k) {
        m
    } else {
        m.insert(k, deadline)
    }
}

/// Keys whose deadline has passed at `now`.
pub open spec fn due_set<K>(m: Map<K, u64>, now: u64) -> Set<K> {
    Set::new(|k: K| m.contains_key(k) && m[k] <= now)
}

/// The queue once every key due at `now` has been taken out.
pub open spec fn after_take_due<K>(m: Map<K, u64>, now: u64) -> Map<K, u64> {
    m.restrict(Set::new(|k: K| m.contains_key(k) && m[k] > now))
}

/// Coalescing: a second signal for a pending key changes nothing, whatever
/// deadline it would have opened.
pub proof fn lemma_signal_coalesces<K>(m: Map<K, u64>, k: K, first: u64, second: u64)
    ensures
        after_signal(after_signal(m, k, first), k, second) == after_signal(m, k, first),
        after_signal(after_signal(m, k, first), k, second)[k] == (if m.contains_key(k) {
            m[k]
        } else {
            first
        }),
{
}

/// Taking the due keys twice at the same time finds nothing the second
/// time and leaves the queue as the first take left it.
pub proof fn lemma_take_due_twice<K>(m: Map<K, u64>, now: u64)
    ensures
        due_set(after_take_due(m, now), now) == Set::<K>::empty(),
        after_take_due(after_take_due(m, now), now) == after_take_due(m, now),
{
    assert(due_set(after_take_due(m, now), now) =~= Set::<K>::empty());
    assert(after_take_due(after_take_due(m, now), now) =~= after_take_due(m, now));
}

/// A key taken out at `now` and signalled again gets a fresh deadline
/// instead of the old one.
pub proof fn lemma_signal_after_take_is_fresh<K>(m: Map<K, u64>, k: K, now: u64, deadline: u64)
    requires
        m.contains_key(k),
        m[k] <= now,
    ensures
        after_signal(after_take_due(m, now), k, deadline)[k] == deadline,
{
}

/// Every pending key is either due or still pending after a take, never both.
pub proof fn lemma_take_due_partitions<K>(m: Map<K, u64>, now: u64)
    ensures
        due_set(m, now).disjoint(after_take_due(m, now).dom()),
        due_set(m, now) + after_take_due(m, now).dom() == m.dom(),
{
    assert(due_set(m, now) + after_take_due(m, now).dom() =~= m.dom());
}

/// Taking one due key out leaves every other due key due, with its
/// deadline: repeated takes drain exactly the due set.
pub proof fn lemma_take_one_keeps_other_due<K>(m: Map<K, u64>, k: K, now: u64)
    ensures
        due_set(m.remove(k), now) == due_set(m, now).remove(k),
{
    assert(due_set(m.remove(k), now) =~= due_set(m, now).remove(k));
}

/// A prefix of a list with distinct keys has distinct keys.
pub proof fn lemma_distinct_take<K, V>(s: Seq<(K, V)>, n: int)
    requires
        distinct_keys(s),
        0 <= n <= s.len(),
    ensures
        distinct_keys(s.take(n)),
{
    let p = s.take(n);
    assert forall|i: int, j: int| 0 <= i < j < p.len() implies #[trigger] p[i].0 != #[trigger] p[j].0 by {
        assert(p[i] == s[i]);
        assert(p[j] == s[j]);
    }
}

/// A key is in the map exactly when some entry carries it.
pub proof fn lemma_assoc_dom<K, V>(s: Seq<(K, V)>, k: K)
    ensures
        assoc_map(s).contains_key(k) <==> exists|i: int| 0 <= i < s.len() && #[trigger] s[i].0 == k,
    decreases s.len(),
{
    if s.len() > 0 {
        let p = s.drop_last();
        lemma_assoc_dom(p, k);
        if assoc_map(s).contains_key(k) {
            if k == s.last().0 {
                assert(s[s.len() - 1].0 == k);
            } else {
                let i = choose|i: int| 0 <= i < p.len() && #[trigger] p[i].0 == k;
                assert(s[i].0 == k);
            }
        }
        if exists|i: int| 0 <= i < s.len() && #[trigger] s[i].0 == k {
            let i = choose|i: int| 0 <= i < s.len() && #[trigger] s[i].0 == k;
            if i < s.len() - 1 {
                assert(p[i].0 == k);
            }
        }
    }
}

/// With distinct keys, every entry is what the map holds for its key.
pub proof fn lemma_assoc_value<K, V>(s: Seq<(K, V)>, i: int)
    requires
        distinct_keys(s),
        0 <= i < s.len(),
    ensures
        assoc_map(s).contains_key(s[i].0),
        assoc_map(s)[s[i].0] == s[i].1,
    decreases s.len(),
{
    let p = s.drop_last();
    if i < s.len() - 1 {
        assert(p =~= s.take(s.len() - 1));
        lemma_distinct_take(s, s.len() - 1);
        assert(p[i] == s[i]);
        lemma_assoc_value(p, i);
        assert(s[i].0 != s[s.len() - 1].0);
    }
}

/// Appending an entry with a fresh key inserts it into the map and keeps
/// the keys distinct.
pub proof fn lemma_assoc_push<K, V>(s: Seq<(K, V)>, k: K, v: V)
    requires
        distinct_keys(s),
        !assoc_map(s).contains_key(k),
    ensures
        distinct_keys(s.push((k, v))),
        assoc_map(s.push((k, v))) == assoc_map(s).insert(k, v),
{
    let t = s.push((k, v));
    assert(t.drop_last() =~= s);
    lemma_assoc_dom(s, k);
    assert forall|i: int, j: int| 0 <= i < j < t.len() implies #[trigger] t[i].0 != #[trigger] t[j].0 by {
        assert(t[i] == s[i]);
        if j < s.len() {
            assert(t[j] == s[j]);
        }
    }
}

/// Removing the entry at `i` removes its key from the map and keeps the
/// keys distinct.
pub proof fn lemma_assoc_remove<K, V>(s: Seq<(K, V)>, i: int)
    requires
        distinct_keys(s),
        0 <= i < s.len(),
    ensures
        distinct_keys(s.remove(i)),
        assoc_map(s.remove(i)) == assoc_map(s).remove(s[i].0),
{
    let t = s.remove(i);
    assert forall|a: int, b: int| 0 <= a < b < t.len() implies #[trigger] t[a].0 != #[trigger] t[b].0 by {
        let sa = if a < i { a } else { a + 1 };
        let sb = if b < i { b } else { b + 1 };
        assert(t[a] == s[sa]);
        assert(t[b] == s[sb]);
    }
    let m = assoc_map(s).remove(s[i].0);
    assert forall|k: K| #[trigger] assoc_map(t).contains_key(k) <==> m.contains_key(k) by {
        lemma_assoc_dom(t, k);
        lemma_assoc_dom(s, k);
        if assoc_map(t).contains_key(k) {
            let a = choose|a: int| 0 <= a < t.len() && #[trigger] t[a].0 == k;
            let sa = if a < i { a } else { a + 1 };
            assert(t[a] == s[sa]);
            assert(s[sa].0 == k);
            assert(k != s[i].0);
        }
        if m.contains_key(k) {
            let j = choose|j: int| 0 <= j < s.len() && #[trigger] s[j].0 == k;
            assert(j != i);
            let a = if j < i { j } else { j - 1 };
            assert(t[a] == s[j]);
            assert(t[a].0 == k);
        }
    }
    assert forall|k: K| #[trigger] assoc_map(t).contains_key(k) implies assoc_map(t)[k] == m[k] by {
        lemma_assoc_dom(t, k);
        let a = choose|a: int| 0 <= a < t.len() && #[trigger] t[a].0 == k;
        let sa = if a < i { a } else { a + 1 };
        assert(t[a] == s[sa]);
        lemma_assoc_value(t, a);
        lemma_assoc_value(s, sa);
    }
    assert(assoc_map(t) =~= m);
}

/// Dropping the due entries keeps exactly the keys whose deadline is still
/// ahead, with their deadlines, and keeps the keys distinct.
pub proof fn lemma_pending_after<K>(s: Seq<(K, u64)>, now: u64)
    requires
        distinct_keys(s),
    ensures
        distinct_keys(pending_after(s, now)),
        forall|k: K| #[trigger]
            assoc_map(pending_after(s, now)).contains_key(k) <==> (assoc_map(s).contains_key(k)
                && assoc_map(s)[k] > now),
        forall|k: K| #[trigger]
            assoc_map(pending_after(s, now)).contains_key(k) ==> assoc_map(pending_after(s, now))[k]
                == assoc_map(s)[k],
    decreases s.len(),
{
    if s.len() > 0 {
        let p = s.drop_last();
        let last = s.last();
        assert(p =~= s.take(s.len() - 1));
        lemma_distinct_take(s, s.len() - 1);
        lemma_pending_after(p, now);
        lemma_assoc_dom(p, last.0);
        assert forall|i: int| 0 <= i < p.len() implies #[trigger] p[i].0 != last.0 by {
            assert(p[i] == s[i]);
            assert(s[i].0 != s[s.len() - 1].0);
        }
        if last.1 > now {
            lemma_assoc_push(pending_after(p, now), last.0, last.1);
        }
    }
}

/// The due keys are exactly the keys whose deadline has passed, each once.
pub proof fn lemma_due_keys<K>(s: Seq<(K, u64)>, now: u64)
    requires
        distinct_keys(s),
    ensures
        due_keys(s, now).no_duplicates(),
        forall|k: K| #[trigger]
            due_keys(s, now).contains(k) <==> (assoc_map(s).contains_key(k) && assoc_map(s)[k]
                <= now),
    decreases s.len(),
{
    if s.len() > 0 {
        let p = s.drop_last();
        let last = s.last();
        let dp = due_keys(p, now);
        let ds = due_keys(s, now);
        assert(p =~= s.take(s.len() - 1));
        lemma_distinct_take(s, s.len() - 1);
        lemma_due_keys(p, now);
        lemma_assoc_dom(p, last.0);
        assert forall|i: int| 0 <= i < p.len() implies #[trigger] p[i].0 != last.0 by {
            assert(p[i] == s[i]);
            assert(s[i].0 != s[s.len() - 1].0);
        }
        assert(!assoc_map(p).contains_key(last.0));
        assert(!dp.contains(last.0));
        if last.1 <= now {
            assert forall|a: int, b: int| 0 <= a < ds.len() && 0 <= b < ds.len() && a != b implies ds[a]
                != ds[b] by {
                if a < dp.len() && b < dp.len() {
                    assert(ds[a] == dp[a]);
                    assert(ds[b] == dp[b]);
                } else if a < dp.len() {
                    assert(ds[a] == dp[a]);
                } else if b < dp.len() {
                    assert(ds[b] == dp[b]);
                }
            }
            assert forall|k: K| #[trigger] ds.contains(k) <==> (assoc_map(s).contains_key(k)
                && assoc_map(s)[k] <= now) by {
                if ds.contains(k) && k != last.0 {
                    let a = choose|a: int| 0 <= a < ds.len() && ds[a] == k;
                    assert(dp[a] == k);
                }
                if dp.contains(k) {
                    let a = choose|a: int| 0 <= a < dp.len() && dp[a] == k;
                    assert(ds[a] == k);
                }
                if k == last.0 {
                    assert(ds[ds.len() - 1] == k);
                }
            }
        }
    }
}

} // verus!
