//! Leaderboard panel refresh decisions: the per-guild debounce queue and
//! what a refresh attempt does to the panel record.
//!
//! Time is a plain count of milliseconds on the caller's monotonic clock;
//! the caller turns its instants into such counts and back.

use vstd::prelude::*;

use crate::deadlines::{
    after_signal, after_take_due, assoc_map, distinct_keys, due_keys, due_set, lemma_assoc_dom,
    lemma_assoc_push, lemma_assoc_value, lemma_due_keys, lemma_pending_after, pending_after,
};

verus! {

/// Per-guild debounce bookkeeping. A guild's FIRST signal fixes its
/// deadline at `now + delay`; further signals before the deadline coalesce
/// (they do NOT push the deadline out, so a constant stream of awards still
/// refreshes the panel once per window instead of starving it).
pub struct DebounceQueue {
    delay: u64,
    pending: Vec<(i64, u64)>,
}

impl View for DebounceQueue {
    /// Pending guild → deadline.
    type V = Map<i64, u64>;

    closed spec fn view(&self) -> Map<i64, u64> {
        assoc_map(self.pending@)
    }
}

impl DebounceQueue {
    /// The debounce window every first signal opens.
    pub closed spec fn delay_spec(&self) -> u64 {
        self.delay
    }

    /// Internal invariant: each guild is pending at most once.
    pub closed spec fn wf(&self) -> bool {
        distinct_keys(self.pending@)
    }

    /// An empty queue with the given debounce window.
    pub fn new(delay: u64) -> (q: Self)
        ensures
            q.wf(),
            q@ == Map::<i64, u64>::empty(),
            q.delay_spec() == delay,
    {
        DebounceQueue { delay, pending: Vec::new() }
    }

    /// Records a refresh request for `guild_id` observed at `now`: a guild
    /// not yet pending gets the deadline `now + delay`, a pending one keeps
    /// its deadline.
    pub fn signal(&mut self, guild_id: i64, now: u64)
        requires
            old(self).wf(),
            now + old(self).delay_spec() <= u64::MAX,
        ensures
            final(self).wf(),
            final(self).delay_spec() == old(self).delay_spec(),
            final(self)@ == after_signal(old(self)@, guild_id, (now + old(self).delay_spec()) as u64),
    {
        let mut i: usize = 0;
        while i < self.pending.len()
            invariant
                i <= self.pending.len(),
                *self == *old(self),
                self.wf(),
                forall|j: int| 0 <= j < i ==> (#[trigger] self.pending@[j]).0 != guild_id,
            decreases self.pending.len() - i,
        {
            if self.pending[i].0 == guild_id {
                proof {
                    lemma_assoc_dom(self.pending@, guild_id);
                }
                return;
            }
            i = i + 1;
        }
        proof {
            lemma_assoc_dom(self.pending@, guild_id);
            lemma_assoc_push(self.pending@, guild_id, (now + self.delay) as u64);
        }
        self.pending.push((guild_id, now + self.delay));
    }

    /// The earliest pending deadline, if any: what the run loop sleeps on.
    pub fn next_deadline(&self) -> (r: Option<u64>)
        requires
            self.wf(),
        ensures
            r is None <==> self@.is_empty(),
            r matches Some(d) ==> {
                &&& exists|g: i64| #[trigger] self@.contains_key(g) && self@[g] == d
                &&& forall|g: i64| #[trigger] self@.contains_key(g) ==> d <= self@[g]
            },
    {
        let s = &self.pending;
        if s.len() == 0 {
            assert(self@ =~= Map::<i64, u64>::empty());
            return None;
        }
        let mut best: u64 = s[0].1;
        let mut at: usize = 0;
        let mut i: usize = 1;
        while i < s.len()
            invariant
                1 <= i <= s.len(),
                at < i,
                best == s@[at as int].1,
                forall|j: int| 0 <= j < i ==> best <= (#[trigger] s@[j]).1,
            decreases s.len() - i,
        {
            if s[i].1 < best {
                best = s[i].1;
                at = i;
            }
            i = i + 1;
        }
        proof {
            lemma_assoc_value(s@, at as int);
            assert(self@.contains_key(s@[at as int].0));
            assert forall|g: i64| #[trigger] self@.contains_key(g) implies best <= self@[g] by {
                lemma_assoc_dom(s@, g);
                let j = choose|j: int| 0 <= j < s@.len() && #[trigger] s@[j].0 == g;
                lemma_assoc_value(s@, j);
            }
        }
        Some(best)
    }

    /// Removes and returns every guild whose deadline has passed at `now`,
    /// each once; the others stay queued with their deadlines.
    pub fn take_due(&mut self, now: u64) -> (due: Vec<i64>)
        requires
            old(self).wf(),
        ensures
            final(self).wf(),
            final(self).delay_spec() == old(self).delay_spec(),
            due@.no_duplicates(),
            due@.to_set() == due_set(old(self)@, now),
            final(self)@ == after_take_due(old(self)@, now),
    {
        let ghost s = self.pending@;
        let mut due: Vec<i64> = Vec::new();
        let mut kept: Vec<(i64, u64)> = Vec::new();
        let mut i: usize = 0;
        while i < self.pending.len()
            invariant
                i <= self.pending.len(),
                s == self.pending@,
                due@ == due_keys(s.take(i as int), now),
                kept@ == pending_after(s.take(i as int), now),
            decreases self.pending.len() - i,
        {
            let entry = self.pending[i];
            assert(s.take(i + 1).drop_last() =~= s.take(i as int));
            if entry.1 <= now {
                due.push(entry.0);
            } else {
                kept.push(entry);
            }
            i = i + 1;
        }
        proof {
            assert(s.take(s.len() as int) =~= s);
            lemma_due_keys(s, now);
            lemma_pending_after(s, now);
            assert(due@.to_set() =~= due_set(assoc_map(s), now));
            assert(assoc_map(kept@) =~= after_take_due(assoc_map(s), now));
        }
        self.pending = kept;
        due
    }
}

/// How an edit attempt failed, already classified.
#[derive(Debug, Clone, Copy, PartialEq, Eq, Structural)]
pub enum EditFailure {
    /// Discord answered 404: the channel or message no longer exists.
    DeadTarget,
    /// Anything else: assumed recoverable, never destroys the record.
    Transient,
}

/// What a refresh attempt did to the panel record.
#[derive(Debug, Clone, Copy, PartialEq, Eq, Structural)]
pub enum PanelFate {
    /// The guild has no panel record: nothing to do.
    NoPanel,
    /// Message edited; `updated_at` bumped.
    Updated,
    /// The target channel/message is gone (404): record removed.
    RemovedDead,
    /// Transient failure (network, permissions): record kept for retry.
    KeptAfterError,
}

/// Only a definitive "does not exist" makes a target dead. 403 and friends
/// stay transient: permissions can be fixed, so the record must survive.
pub fn dead_status(status: u16) -> (dead: bool)
    ensures
        dead == (status == 404),
{
    status == 404
}

/// Classifies a failed edit by its HTTP status (`None` when the failure was
/// not an unsuccessful HTTP answer).
pub fn classify_status(status: Option<u16>) -> (f: EditFailure)
    ensures
        f == (if status == Some(404u16) {
            EditFailure::DeadTarget
        } else {
            EditFailure::Transient
        }),
{
    match status {
        Some(code) => {
            if dead_status(code) {
                EditFailure::DeadTarget
            } else {
                EditFailure::Transient
            }
        },
        None => EditFailure::Transient,
    }
}

/// What settling an edit attempt does to the record: success bumps
/// `updated_at`, a dead target removes the record, a transient failure
/// keeps it untouched for the next signal or sweep.
pub fn settle_fate(outcome: Result<(), EditFailure>) -> (fate: PanelFate)
    ensures
        fate == match outcome {
            Ok(()) => PanelFate::Updated,
            Err(EditFailure::DeadTarget) => PanelFate::RemovedDead,
            Err(EditFailure::Transient) => PanelFate::KeptAfterError,
        },
{
    match outcome {
        Ok(()) => PanelFate::Updated,
        Err(EditFailure::DeadTarget) => PanelFate::RemovedDead,
        Err(EditFailure::Transient) => PanelFate::KeptAfterError,
    }
}

} // verus!
