//! Role-reward target computation: ONE final target role set per user, so a
//! role can never be both added and removed.

use vstd::prelude::*;

verus! {

/// How reward roles combine, from the `stack_roles` guild setting.
#[derive(Debug, Clone, Copy, PartialEq, Eq, Structural)]
pub enum StackMode {
    /// `stack_roles == 0`: the user holds every reward whose requirement is met.
    All,
    /// `stack_roles == 1` (default): only the single highest-requirement met reward.
    HighestOnly,
}

impl StackMode {
    /// Maps the stored `stack_roles` value to a mode: 0 = All, anything
    /// else = HighestOnly.
    pub fn from_setting(value: i16) -> (m: Self)
        ensures
            m == (if value == 0 {
                StackMode::All
            } else {
                StackMode::HighestOnly
            }),
    {
        if value == 0 {
            StackMode::All
        } else {
            StackMode::HighestOnly
        }
    }
}

/// Role ids of the rewards met at `score` (`requirement <= score`), in input order.
pub open spec fn met_roles(score: int, rewards: Seq<(i64, i64)>) -> Seq<i64>
    decreases rewards.len(),
{
    if rewards.len() == 0 {
        Seq::empty()
    } else if rewards.last().1 <= score {
        met_roles(score, rewards.drop_last()).push(rewards.last().0)
    } else {
        met_roles(score, rewards.drop_last())
    }
}

/// The met reward with the highest requirement, the first one in input
/// order on a tie; `None` when nothing is met.
pub open spec fn best_met(score: int, rewards: Seq<(i64, i64)>) -> Option<(i64, i64)>
    decreases rewards.len(),
{
    if rewards.len() == 0 {
        None
    } else {
        let best = best_met(score, rewards.drop_last());
        let x = rewards.last();
        if x.1 <= score {
            match best {
                Some(b) => if x.1 > b.1 {
                    Some(x)
                } else {
                    best
                },
                None => Some(x),
            }
        } else {
            best
        }
    }
}

/// The exact target role set for a score under a stack mode.
pub open spec fn target_roles_spec(score: int, rewards: Seq<(i64, i64)>, stack: StackMode) -> Seq<
    i64,
> {
    match stack {
        StackMode::All => met_roles(score, rewards),
        StackMode::HighestOnly => match best_met(score, rewards) {
            Some(b) => seq![b.0],
            None => Seq::empty(),
        },
    }
}

/// The exact set of reward roles a user with `score` should hold.
///
/// `rewards` holds `(role_id, requirement)` pairs in any order. A reward is
/// met when `requirement <= score`. Under [`StackMode::All`] every met
/// reward is returned in input order; under [`StackMode::HighestOnly`] only
/// the met reward with the highest requirement (the first on a tie). No
/// reward met yields an empty vector, meaning "remove all reward roles".
pub fn target_roles(score: i64, rewards: &[(i64, i64)], stack: StackMode) -> (r: Vec<i64>)
    ensures
        r@ == target_roles_spec(score as int, rewards@, stack),
        stack == StackMode::All ==> forall|id: i64|
            #[trigger] r@.contains(id) <==> exists|j: int|
                0 <= j < rewards@.len() && (#[trigger] rewards@[j]).0 == id && rewards@[j].1 <= score,
        stack == StackMode::HighestOnly ==> r@.len() <= 1 && (r@.len() == 0 <==> forall|j: int|
            0 <= j < rewards@.len() ==> (#[trigger] rewards@[j]).1 > score),
        stack == StackMode::HighestOnly && r@.len() == 1 ==> exists|i: int|
            0 <= i < rewards@.len() && (#[trigger] rewards@[i]).0 == r@[0] && rewards@[i].1 <= score && (forall|j: int|
                0 <= j < rewards@.len() && (#[trigger] rewards@[j]).1 <= score ==> rewards@[j].1 <= rewards@[i].1)
                && (forall|j: int| 0 <= j < i && (#[trigger] rewards@[j]).1 <= score ==> rewards@[j].1 < rewards@[i].1),
{
    proof {
        lemma_target_roles_law(score as int, rewards@);
    }
    let mut met: Vec<i64> = Vec::new();
    let mut best: Option<(i64, i64)> = None;
    let mut i: usize = 0;
    while i < rewards.len()
        invariant
            i <= rewards.len(),
            met@ == met_roles(score as int, rewards@.take(i as int)),
            best == best_met(score as int, rewards@.take(i as int)),
        decreases rewards.len() - i,
    {
        let (role_id, requirement) = rewards[i];
        assert(rewards@.take(i + 1).drop_last() =~= rewards@.take(i as int));
        assert(rewards@.take(i + 1).last() == rewards@[i as int]);
        if requirement <= score {
            met.push(role_id);
            best = match best {
                Some(b) => if requirement > b.1 {
                    Some((role_id, requirement))
                } else {
                    Some(b)
                },
                None => Some((role_id, requirement)),
            };
        }
        i = i + 1;
    }
    assert(rewards@.take(rewards@.len() as int) =~= rewards@);
    match stack {
        StackMode::All => met,
        StackMode::HighestOnly => match best {
            Some(b) => {
                let mut v: Vec<i64> = Vec::new();
                v.push(b.0);
                assert(v@ =~= seq![b.0]);
                v
            },
            None => Vec::new(),
        },
    }
}

/// The highest-only choice is a met reward, its requirement is at least
/// that of every met reward, every earlier met reward has a strictly lower
/// requirement (first in input order on a tie), and nothing is chosen only
/// when no reward is met.
pub proof fn lemma_best_met_is_first_highest(score: int, rewards: Seq<(i64, i64)>)
    ensures
        best_met(score, rewards) is None <==> (forall|j: int|
            0 <= j < rewards.len() ==> (#[trigger] rewards[j]).1 > score),
        best_met(score, rewards) matches Some(b) ==> exists|i: int|
            0 <= i < rewards.len() && rewards[i] == b && b.1 <= score && (forall|j: int|
                0 <= j < rewards.len() && (#[trigger] rewards[j]).1 <= score ==> rewards[j].1 <= b.1)
                && (forall|j: int| 0 <= j < i && (#[trigger] rewards[j]).1 <= score ==> rewards[j].1 < b.1),
    decreases rewards.len(),
{
    if rewards.len() > 0 {
        let p = rewards.drop_last();
        lemma_best_met_is_first_highest(score, p);
        let x = rewards.last();
        let n = rewards.len() - 1;
        assert forall|j: int| 0 <= j < p.len() implies p[j] == rewards[j] by {}
        match best_met(score, p) {
            Some(b) => {
                let i = choose|i: int|
                    0 <= i < p.len() && p[i] == b && b.1 <= score && (forall|j: int|
                        0 <= j < p.len() && (#[trigger] p[j]).1 <= score ==> p[j].1 <= b.1) && (
                    forall|j: int| 0 <= j < i && (#[trigger] p[j]).1 <= score ==> p[j].1 < b.1);
                if x.1 <= score && x.1 > b.1 {
                    assert(rewards[n] == x);
                    assert forall|j: int| 0 <= j < n && (#[trigger] rewards[j]).1 <= score implies rewards[j].1
                        < x.1 by {
                        assert(p[j] == rewards[j]);
                    }
                } else {
                    assert(rewards[i] == b);
                    assert forall|j: int| 0 <= j < rewards.len() && (#[trigger] rewards[j]).1 <= score implies rewards[j].1
                        <= b.1 by {
                        if j < n {
                            assert(p[j] == rewards[j]);
                        }
                    }
                    assert forall|j: int| 0 <= j < i && (#[trigger] rewards[j]).1 <= score implies rewards[j].1
                        < b.1 by {
                        assert(p[j] == rewards[j]);
                    }
                }
            },
            None => {
                if x.1 <= score {
                    assert(rewards[n] == x);
                    assert forall|j: int| 0 <= j < rewards.len() && (#[trigger] rewards[j]).1 <= score implies rewards[j].1
                        <= x.1 by {
                        if j < n {
                            assert(p[j] == rewards[j]);
                        }
                    }
                    assert forall|j: int| 0 <= j < n && (#[trigger] rewards[j]).1 <= score implies rewards[j].1
                        < x.1 by {
                        assert(p[j] == rewards[j]);
                    }
                } else {
                    assert forall|j: int| 0 <= j < rewards.len() implies (#[trigger] rewards[j]).1
                        > score by {
                        if j < n {
                            assert(p[j] == rewards[j]);
                        }
                    }
                }
            },
        }
    }
}

/// A met reward set grows with the score: every role targeted under
/// [`StackMode::All`] at a score is still targeted at any higher score.
pub proof fn lemma_met_roles_monotone(s1: int, s2: int, rewards: Seq<(i64, i64)>)
    requires
        s1 <= s2,
    ensures
        forall|r: i64| met_roles(s1, rewards).contains(r) ==> met_roles(s2, rewards).contains(r),
    decreases rewards.len(),
{
    if rewards.len() > 0 {
        lemma_met_roles_monotone(s1, s2, rewards.drop_last());
        let p = rewards.drop_last();
        assert forall|r: i64| met_roles(s1, rewards).contains(r) implies met_roles(
            s2,
            rewards,
        ).contains(r) by {
            if met_roles(s1, p).contains(r) {
                let k = choose|k: int| 0 <= k < met_roles(s2, p).len() && met_roles(s2, p)[k] == r;
                if rewards.last().1 <= s2 {
                    assert(met_roles(s2, rewards)[k] == r);
                }
            } else {
                assert(rewards.last().1 <= s1);
                assert(met_roles(s2, rewards).last() == r);
            }
        }
    }
}


/// Under [`StackMode::All`] the targets are exactly the roles of the met
/// rewards (`requirement <= score`), each met reward in input order; under
/// [`StackMode::HighestOnly`] there is at most one target: none when no
/// reward is met, else the role of a met reward whose requirement is at
/// least that of every met reward and above that of every earlier met one.
pub proof fn lemma_target_roles_law(score: int, rewards: Seq<(i64, i64)>)
    ensures
        target_roles_spec(score, rewards, StackMode::All).len() <= rewards.len(),
        forall|r: i64|
            #[trigger] target_roles_spec(score, rewards, StackMode::All).contains(r) <==> exists|j: int|
                0 <= j < rewards.len() && (#[trigger] rewards[j]).0 == r && rewards[j].1 <= score,
        target_roles_spec(score, rewards, StackMode::HighestOnly).len() <= 1,
        target_roles_spec(score, rewards, StackMode::HighestOnly).len() == 0 <==> (forall|j: int|
            0 <= j < rewards.len() ==> (#[trigger] rewards[j]).1 > score),
        target_roles_spec(score, rewards, StackMode::HighestOnly).len() == 1 ==> exists|i: int|
            0 <= i < rewards.len() && (#[trigger] rewards[i]).0 == target_roles_spec(
                score,
                rewards,
                StackMode::HighestOnly,
            )[0] && rewards[i].1 <= score && (forall|j: int|
                0 <= j < rewards.len() && (#[trigger] rewards[j]).1 <= score ==> rewards[j].1 <= rewards[i].1)
                && (forall|j: int| 0 <= j < i && (#[trigger] rewards[j]).1 <= score ==> rewards[j].1 < rewards[i].1),
{
    lemma_best_met_is_first_highest(score, rewards);
    lemma_met_roles_members(score, rewards);
}

proof fn lemma_met_roles_members(score: int, rewards: Seq<(i64, i64)>)
    ensures
        met_roles(score, rewards).len() <= rewards.len(),
        forall|r: i64|
            #[trigger] met_roles(score, rewards).contains(r) <==> exists|j: int|
                0 <= j < rewards.len() && (#[trigger] rewards[j]).0 == r && rewards[j].1 <= score,
    decreases rewards.len(),
{
    if rewards.len() > 0 {
        let p = rewards.drop_last();
        lemma_met_roles_members(score, p);
        let n = rewards.len() - 1;
        if rewards.last().1 <= score {
            assert(met_roles(score, rewards) == met_roles(score, p).push(rewards.last().0));
        } else {
            assert(met_roles(score, rewards) == met_roles(score, p));
        }
        assert forall|r: i64|
            #[trigger] met_roles(score, rewards).contains(r) <==> exists|j: int|
                0 <= j < rewards.len() && (#[trigger] rewards[j]).0 == r && rewards[j].1 <= score by {
            if met_roles(score, rewards).contains(r) {
                if met_roles(score, p).contains(r) {
                    let j = choose|j: int| 0 <= j < p.len() && (#[trigger] p[j]).0 == r && p[j].1 <= score;
                    assert(rewards[j] == p[j]);
                } else {
                    let k = choose|k: int| 0 <= k < met_roles(score, rewards).len() && met_roles(score, rewards)[k] == r;
                    if rewards.last().1 <= score {
                        if k < met_roles(score, p).len() {
                            assert(met_roles(score, p)[k] == r);
                        }
                        assert(rewards[n] == rewards.last());
                    }
                }
            }
            if exists|j: int| 0 <= j < rewards.len() && (#[trigger] rewards[j]).0 == r && rewards[j].1 <= score {
                let j = choose|j: int| 0 <= j < rewards.len() && (#[trigger] rewards[j]).0 == r && rewards[j].1 <= score;
                if j < n {
                    assert(p[j] == rewards[j]);
                    assert(met_roles(score, p).contains(r));
                    let k = choose|k: int| 0 <= k < met_roles(score, p).len() && met_roles(score, p)[k] == r;
                    if rewards.last().1 <= score {
                        assert(met_roles(score, rewards)[k] == met_roles(score, p)[k]);
                        assert(met_roles(score, rewards)[k] == r);
                    }
                } else {
                    assert(met_roles(score, rewards).last() == r);
                }
            }
        }
    }
}

} // verus!
