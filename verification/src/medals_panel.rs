//! Active-medals panel refresh bookkeeping: the same debounce rules as the
//! leaderboard panels, keyed by `(guild_id, category)`, handing out one due
//! panel at a time, earliest deadline first.
//!
//! Time is a plain count of milliseconds on the caller's monotonic clock.

use vstd::prelude::*;

use crate::text::{has_prefix, spec_str_lowercase, starts_with, str_chars, str_to_lowercase};
use crate::deadlines::{
    after_signal, assoc_map, distinct_keys, due_set, lemma_assoc_dom, lemma_assoc_push,
    lemma_assoc_remove, lemma_assoc_value,
};

verus! {

/// A panel key as the contracts see it: guild id and category text.
pub type PanelKeyView = (i64, Seq<char>);

/// One pending entry, by value.
pub open spec fn entry_view(e: ((i64, String), u64)) -> (PanelKeyView, u64) {
    ((e.0.0, e.0.1@), e.1)
}

/// The pending list, by value.
pub open spec fn entries_view(s: Seq<((i64, String), u64)>) -> Seq<(PanelKeyView, u64)> {
    s.map_values(|e: ((i64, String), u64)| entry_view(e))
}

/// Per-panel debounce bookkeeping keyed by `(guild_id, category)`.
pub struct DebounceQueue {
    delay: u64,
    pending: Vec<((i64, String), u64)>,
}

impl View for DebounceQueue {
    /// Pending panel key → deadline.
    type V = Map<PanelKeyView, u64>;

    closed spec fn view(&self) -> Map<PanelKeyView, u64> {
        assoc_map(entries_view(self.pending@))
    }
}

impl DebounceQueue {
    /// The debounce window every first signal opens.
    pub closed spec fn delay_spec(&self) -> u64 {
        self.delay
    }

    /// Internal invariant: each panel key is pending at most once.
    pub closed spec fn wf(&self) -> bool {
        distinct_keys(entries_view(self.pending@))
    }

    /// An empty queue with the given debounce window.
    pub fn new(delay: u64) -> (q: Self)
        ensures
            q.wf(),
            q@ == Map::<PanelKeyView, u64>::empty(),
            q.delay_spec() == delay,
    {
        let q = DebounceQueue { delay, pending: Vec::new() };
        assert(entries_view(q.pending@) =~= Seq::<(PanelKeyView, u64)>::empty());
        q
    }

    /// Records a refresh request for `key` observed at `now`: a key not yet
    /// pending gets the deadline `now + delay`, a pending one keeps its own.
    pub fn signal(&mut self, key: (i64, String), now: u64)
        requires
            old(self).wf(),
            now + old(self).delay_spec() <= u64::MAX,
        ensures
            final(self).wf(),
            final(self).delay_spec() == old(self).delay_spec(),
            final(self)@ == after_signal(old(self)@, (key.0, key.1@), (now + old(self).delay_spec()) as u64),
    {
        let ghost kv: PanelKeyView = (key.0, key.1@);
        let ghost es = entries_view(self.pending@);
        let mut i: usize = 0;
        while i < self.pending.len()
            invariant
                i <= self.pending.len(),
                *self == *old(self),
                self.wf(),
                es == entries_view(self.pending@),
                kv == (key.0, key.1@),
                forall|j: int| 0 <= j < i ==> (#[trigger] es[j]).0 != kv,
            decreases self.pending.len() - i,
        {
            let same = self.pending[i].0.0 == key.0 && self.pending[i].0.1 == key.1;
            assert(es[i as int] == entry_view(self.pending@[i as int]));
            if same {
                assert(es[i as int].0 == kv);
                proof {
                    lemma_assoc_dom(es, kv);
                }
                return;
            }
            i = i + 1;
        }
        let deadline = now + self.delay;
        proof {
            lemma_assoc_dom(es, kv);
            lemma_assoc_push(es, kv, deadline);
        }
        self.pending.push((key, deadline));
        assert(entries_view(self.pending@) =~= es.push((kv, deadline)));
    }

    /// The earliest pending deadline, if any.
    pub fn next_deadline(&self) -> (r: Option<u64>)
        requires
            self.wf(),
        ensures
            r is None <==> self@.is_empty(),
            r matches Some(d) ==> {
                &&& exists|k: PanelKeyView| #[trigger] self@.contains_key(k) && self@[k] == d
                &&& forall|k: PanelKeyView| #[trigger] self@.contains_key(k) ==> d <= self@[k]
            },
    {
        let s = &self.pending;
        let ghost es = entries_view(s@);
        if s.len() == 0 {
            assert(es =~= Seq::<(PanelKeyView, u64)>::empty());
            assert(self@ =~= Map::<PanelKeyView, u64>::empty());
            return None;
        }
        let mut best: u64 = s[0].1;
        let mut at: usize = 0;
        let mut i: usize = 1;
        while i < s.len()
            invariant
                1 <= i <= s.len(),
                es == entries_view(s@),
                at < i,
                best == s@[at as int].1,
                forall|j: int| 0 <= j < i ==> best <= (#[trigger] s@[j]).1,
            decreases s.len() - i,
        {
            if s[i].1 < best {
                best = s[i].1;
                at = i;
            }
            i = i + 1;
        }
        proof {
            assert(es[at as int] == entry_view(s@[at as int]));
            lemma_assoc_value(es, at as int);
            assert(self@.contains_key(es[at as int].0));
            assert forall|k: PanelKeyView| #[trigger] self@.contains_key(k) implies best <= self@[k] by {
                lemma_assoc_dom(es, k);
                let j = choose|j: int| 0 <= j < es.len() && #[trigger] es[j].0 == k;
                assert(es[j] == entry_view(s@[j]));
                lemma_assoc_value(es, j);
            }
        }
        Some(best)
    }

    /// Removes and returns ONE key whose deadline has passed at `now`: one
    /// with the earliest such deadline. `None` when nothing is due, and the
    /// queue is then unchanged.
    pub fn take_one_due(&mut self, now: u64) -> (r: Option<(i64, String)>)
        requires
            old(self).wf(),
        ensures
            final(self).wf(),
            final(self).delay_spec() == old(self).delay_spec(),
            r is None <==> due_set(old(self)@, now).is_empty(),
            r is None ==> final(self)@ == old(self)@,
            r matches Some(k) ==> {
                let kv = (k.0, k.1@);
                &&& due_set(old(self)@, now).contains(kv)
                &&& forall|other: PanelKeyView| #[trigger]
                    due_set(old(self)@, now).contains(other) ==> old(self)@[kv] <= old(self)@[other]
                &&& final(self)@ == old(self)@.remove(kv)
            },
    {
        let ghost es = entries_view(self.pending@);
        let mut found: Option<usize> = None;
        let mut i: usize = 0;
        while i < self.pending.len()
            invariant
                i <= self.pending.len(),
                *self == *old(self),
                es == entries_view(self.pending@),
                match found {
                    None => forall|j: int| 0 <= j < i ==> (#[trigger] es[j]).1 > now,
                    Some(a) => {
                        &&& a < i
                        &&& es[a as int].1 <= now
                        &&& forall|j: int|
                            0 <= j < i && (#[trigger] es[j]).1 <= now ==> es[a as int].1 <= es[j].1
                    },
                },
            decreases self.pending.len() - i,
        {
            assert(es[i as int] == entry_view(self.pending@[i as int]));
            let d = self.pending[i].1;
            if d <= now {
                match found {
                    None => {
                        found = Some(i);
                    },
                    Some(a) => {
                        assert(es[a as int] == entry_view(self.pending@[a as int]));
                        if d < self.pending[a].1 {
                            found = Some(i);
                        }
                    },
                }
            }
            i = i + 1;
        }
        match found {
            None => {
                proof {
                    assert forall|k: PanelKeyView| !#[trigger] due_set(assoc_map(es), now).contains(k) by {
                        lemma_assoc_dom(es, k);
                        if assoc_map(es).contains_key(k) {
                            let j = choose|j: int| 0 <= j < es.len() && #[trigger] es[j].0 == k;
                            lemma_assoc_value(es, j);
                            assert(es[j].1 > now);
                        }
                    }
                    assert(due_set(assoc_map(es), now) =~= Set::<PanelKeyView>::empty());
                    assert(assoc_map(es) == old(self)@);
                }
                None
            },
            Some(a) => {
                proof {
                    assert(es[a as int] == entry_view(self.pending@[a as int]));
                    lemma_assoc_value(es, a as int);
                    assert forall|other: PanelKeyView| #[trigger]
                        due_set(assoc_map(es), now).contains(other) implies assoc_map(es)[es[a as int].0]
                        <= assoc_map(es)[other] by {
                        lemma_assoc_dom(es, other);
                        let j = choose|j: int| 0 <= j < es.len() && #[trigger] es[j].0 == other;
                        lemma_assoc_value(es, j);
                    }
                    lemma_assoc_remove(es, a as int);
                    let kv = es[a as int].0;
                    assert(due_set(assoc_map(es), now).contains(kv));
                    assert(!due_set(assoc_map(es), now).is_empty()) by {
                        if due_set(assoc_map(es), now) =~= Set::<PanelKeyView>::empty() {
                            assert(Set::<PanelKeyView>::empty().contains(kv));
                        }
                    }
                }
                let entry = self.pending.remove(a);
                assert(entries_view(self.pending@) =~= es.remove(a as int));
                Some(entry.0)
            },
        }
    }
}

/// Most categories offered by autocomplete.
pub const MAX_CATEGORY_CHOICES: usize = 25;

/// Categories whose lowercase form starts with the lowercase partial input,
/// in input order.
pub open spec fn matching_categories(categories: Seq<String>, needle: Seq<char>) -> Seq<Seq<char>>
    decreases categories.len(),
{
    if categories.len() == 0 {
        Seq::empty()
    } else {
        let before = matching_categories(categories.drop_last(), needle);
        if has_prefix(spec_str_lowercase(categories.last()@), needle) {
            before.push(categories.last()@)
        } else {
            before
        }
    }
}

/// Category autocomplete: case-insensitive prefix match on the guild's
/// categories (Unicode lowercase), input order kept, at most 25.
pub fn category_choices(categories: &[String], partial: &str) -> (choices: Vec<String>)
    ensures
        ({
            let all = matching_categories(categories@, spec_str_lowercase(partial@));
            choices@.map_values(|c: String| c@) == (if all.len() <= MAX_CATEGORY_CHOICES {
                all
            } else {
                all.take(MAX_CATEGORY_CHOICES as int)
            })
        }),
{
    let needle = str_to_lowercase(&str_chars(partial));
    let mut choices: Vec<String> = Vec::new();
    let mut i: usize = 0;
    while i < categories.len() && choices.len() < MAX_CATEGORY_CHOICES
        invariant
            i <= categories.len(),
            needle@ == spec_str_lowercase(partial@),
            choices@.map_values(|c: String| c@) == matching_categories(categories@.take(i as int), needle@),
            choices@.len() <= MAX_CATEGORY_CHOICES,
        decreases categories.len() - i,
    {
        let lowered = str_to_lowercase(&str_chars(categories[i].as_str()));
        assert(categories@.take(i + 1).drop_last() =~= categories@.take(i as int));
        let ghost before = choices@;
        if starts_with(&lowered, &needle) {
            choices.push(categories[i].clone());
            assert(choices@.map_values(|c: String| c@) =~= before.map_values(|c: String| c@).push(
                categories@[i as int]@,
            ));
        }
        i = i + 1;
    }
    proof {
        lemma_matching_categories_prefix(categories@, needle@, i as int);
        if i == categories.len() {
            assert(categories@.take(i as int) =~= categories@);
        }
    }
    choices
}

/// The matches among the first `k` categories are a prefix of all matches.
proof fn lemma_matching_categories_prefix(categories: Seq<String>, needle: Seq<char>, k: int)
    requires
        0 <= k <= categories.len(),
    ensures
        matching_categories(categories.take(k), needle).len() <= matching_categories(categories, needle).len(),
        matching_categories(categories, needle).take(matching_categories(categories.take(k), needle).len() as int)
            == matching_categories(categories.take(k), needle),
    decreases categories.len() - k,
{
    if k < categories.len() {
        lemma_matching_categories_prefix(categories, needle, k + 1);
        let a = matching_categories(categories.take(k), needle);
        let b = matching_categories(categories.take(k + 1), needle);
        assert(categories.take(k + 1).drop_last() =~= categories.take(k));
        let all = matching_categories(categories, needle);
        assert(all.take(b.len() as int).take(a.len() as int) =~= all.take(a.len() as int));
        assert(b.take(a.len() as int) =~= a);
    } else {
        assert(categories.take(k) =~= categories);
        assert(matching_categories(categories, needle).take(matching_categories(categories, needle).len() as int)
            =~= matching_categories(categories, needle));
    }
}

/// What a refresh attempt did to a medals panel record.
#[derive(Debug, Clone, Copy, PartialEq, Eq, Structural)]
pub enum PanelFate {
    /// No panel record for the key: nothing to do.
    NoPanel,
    /// Message edited; the record was touched.
    Updated,
    /// The target is gone and the record was removed.
    RemovedDead,
    /// The target is gone but the record already points at a newer message.
    Superseded,
    /// Transient failure: record kept for retry.
    KeptAfterError,
}

/// Settling a refresh: success touches the record; a dead target removes
/// the record only while it still points at the refreshed message
/// (`removed` tells whether that guarded removal deleted it); a transient
/// failure keeps it.
pub fn settle_fate(outcome: Result<(), crate::panel_updater::EditFailure>, removed: bool) -> (fate: PanelFate)
    ensures
        fate == match outcome {
            Ok(()) => PanelFate::Updated,
            Err(crate::panel_updater::EditFailure::DeadTarget) => if removed {
                PanelFate::RemovedDead
            } else {
                PanelFate::Superseded
            },
            Err(crate::panel_updater::EditFailure::Transient) => PanelFate::KeptAfterError,
        },
{
    match outcome {
        Ok(()) => PanelFate::Updated,
        Err(crate::panel_updater::EditFailure::DeadTarget) => {
            if removed {
                PanelFate::RemovedDead
            } else {
                PanelFate::Superseded
            }
        },
        Err(crate::panel_updater::EditFailure::Transient) => PanelFate::KeptAfterError,
    }
}

} // verus!
