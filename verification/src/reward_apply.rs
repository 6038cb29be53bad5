//! Reward-role diffing and hierarchy filtering: which reward roles a member
//! must gain and lose to hold exactly the target set, which of those the bot
//! may actually manage, and how high the bot's own roles reach.

use std::collections::HashMap;

use vstd::prelude::*;

verus! {

/// The role additions and removals needed to move a member onto the target
/// reward set. Only configured reward roles ever appear in `remove`.
#[derive(Debug, Default, Clone, PartialEq, Eq)]
pub struct RolePlan {
    pub add: Vec<i64>,
    pub remove: Vec<i64>,
}

impl RolePlan {
    /// Nothing to add and nothing to remove.
    pub fn is_empty(&self) -> (r: bool)
        ensures
            r == (self.add@.len() == 0 && self.remove@.len() == 0),
    {
        self.add.len() == 0 && self.remove.len() == 0
    }
}

/// What the engine needs to know about a guild role to decide assignability.
#[derive(Debug, Clone, Copy, PartialEq, Eq, Structural)]
pub struct RoleMeta {
    /// Position in the guild role hierarchy (0 = @everyone).
    pub position: u16,
    /// Integration/bot-managed roles can never be assigned manually.
    pub managed: bool,
}

/// Target roles the member lacks, first occurrences only, in target order.
pub open spec fn plan_add(member: Seq<i64>, target: Seq<i64>) -> Seq<i64>
    decreases target.len(),
{
    if target.len() == 0 {
        Seq::empty()
    } else {
        let before = plan_add(member, target.drop_last());
        let id = target.last();
        if !member.contains(id) && !before.contains(id) {
            before.push(id)
        } else {
            before
        }
    }
}

/// Held reward roles outside the target, first occurrences only, in the
/// member's order.
pub open spec fn plan_remove(member: Seq<i64>, configured: Seq<i64>, target: Seq<i64>) -> Seq<i64>
    decreases member.len(),
{
    if member.len() == 0 {
        Seq::empty()
    } else {
        let before = plan_remove(member.drop_last(), configured, target);
        let id = member.last();
        if configured.contains(id) && !target.contains(id) && !before.contains(id) {
            before.push(id)
        } else {
            before
        }
    }
}

/// Exec membership test on a slice.
fn contains_id(s: &[i64], id: i64) -> (r: bool)
    ensures
        r == s@.contains(id),
{
    let mut i: usize = 0;
    while i < s.len()
        invariant
            i <= s.len(),
            forall|j: int| 0 <= j < i ==> s@[j] != id,
        decreases s.len() - i,
    {
        if s[i] == id {
            assert(s@[i as int] == id);
            return true;
        }
        i = i + 1;
    }
    false
}

/// Pure diff: which reward roles to add and which to remove so the member
/// ends up holding exactly `target` (a member already on target yields an
/// empty plan). `configured` is every reward role of the guild; roles
/// outside it are never touched. Order follows the input slices and
/// duplicates are collapsed.
pub fn plan_changes(member_roles: &[i64], configured: &[i64], target: &[i64]) -> (plan: RolePlan)
    ensures
        plan.add@ == plan_add(member_roles@, target@),
        plan.remove@ == plan_remove(member_roles@, configured@, target@),
        plan.add@.no_duplicates(),
        plan.remove@.no_duplicates(),
        forall|id: i64| #[trigger] plan.add@.contains(id) <==> (target@.contains(id) && !member_roles@.contains(id)),
        forall|id: i64| #[trigger]
            plan.remove@.contains(id) <==> (member_roles@.contains(id) && configured@.contains(id)
                && !target@.contains(id)),
{
    let mut add: Vec<i64> = Vec::new();
    let mut i: usize = 0;
    while i < target.len()
        invariant
            i <= target.len(),
            add@ == plan_add(member_roles@, target@.take(i as int)),
        decreases target.len() - i,
    {
        let id = target[i];
        assert(target@.take(i + 1).drop_last() =~= target@.take(i as int));
        if !contains_id(member_roles, id) && !contains_id(&add, id) {
            add.push(id);
        }
        i = i + 1;
    }
    assert(target@.take(target@.len() as int) =~= target@);

    let mut remove: Vec<i64> = Vec::new();
    let mut i: usize = 0;
    while i < member_roles.len()
        invariant
            i <= member_roles.len(),
            remove@ == plan_remove(member_roles@.take(i as int), configured@, target@),
        decreases member_roles.len() - i,
    {
        let id = member_roles[i];
        assert(member_roles@.take(i + 1).drop_last() =~= member_roles@.take(i as int));
        if contains_id(configured, id) && !contains_id(target, id) && !contains_id(&remove, id) {
            remove.push(id);
        }
        i = i + 1;
    }
    assert(member_roles@.take(member_roles@.len() as int) =~= member_roles@);
    proof {
        lemma_plan_add(member_roles@, target@);
        lemma_plan_remove(member_roles@, configured@, target@);
    }
    RolePlan { add, remove }
}

/// The additions are exactly the target roles the member lacks, each once.
pub proof fn lemma_plan_add(member: Seq<i64>, target: Seq<i64>)
    ensures
        plan_add(member, target).no_duplicates(),
        forall|id: i64| #[trigger]
            plan_add(member, target).contains(id) <==> (target.contains(id) && !member.contains(id)),
    decreases target.len(),
{
    if target.len() > 0 {
        let p = target.drop_last();
        let before = plan_add(member, p);
        let now = plan_add(member, target);
        let last = target.last();
        lemma_plan_add(member, p);
        assert forall|id: i64| #[trigger] now.contains(id) <==> (target.contains(id) && !member.contains(id)) by {
            if target.contains(id) {
                let k = choose|k: int| 0 <= k < target.len() && target[k] == id;
                if k < target.len() - 1 {
                    assert(p[k] == id);
                }
            }
            if p.contains(id) {
                let k = choose|k: int| 0 <= k < p.len() && p[k] == id;
                assert(target[k] == id);
            }
            if before.contains(id) {
                let k = choose|k: int| 0 <= k < before.len() && before[k] == id;
                if now != before {
                    assert(now[k] == id);
                }
            }
            if now.contains(id) && now != before {
                let k = choose|k: int| 0 <= k < now.len() && now[k] == id;
                if k < before.len() {
                    assert(before[k] == id);
                }
            }
            if id == last && !member.contains(id) && !before.contains(id) {
                assert(now[now.len() - 1] == id);
            }
            assert(target[target.len() - 1] == last);
        }
    }
}

/// The removals are exactly the configured roles the member holds outside
/// the target, each once; nothing outside `configured` is ever removed.
pub proof fn lemma_plan_remove(member: Seq<i64>, configured: Seq<i64>, target: Seq<i64>)
    ensures
        plan_remove(member, configured, target).no_duplicates(),
        forall|id: i64| #[trigger]
            plan_remove(member, configured, target).contains(id) <==> (member.contains(id)
                && configured.contains(id) && !target.contains(id)),
    decreases member.len(),
{
    if member.len() > 0 {
        let p = member.drop_last();
        let before = plan_remove(p, configured, target);
        let now = plan_remove(member, configured, target);
        let last = member.last();
        lemma_plan_remove(p, configured, target);
        assert forall|id: i64| #[trigger] now.contains(id) <==> (member.contains(id) && configured.contains(id)
            && !target.contains(id)) by {
            if member.contains(id) {
                let k = choose|k: int| 0 <= k < member.len() && member[k] == id;
                if k < member.len() - 1 {
                    assert(p[k] == id);
                }
            }
            if p.contains(id) {
                let k = choose|k: int| 0 <= k < p.len() && p[k] == id;
                assert(member[k] == id);
            }
            if before.contains(id) {
                let k = choose|k: int| 0 <= k < before.len() && before[k] == id;
                if now != before {
                    assert(now[k] == id);
                }
            }
            if now.contains(id) && now != before {
                let k = choose|k: int| 0 <= k < now.len() && now[k] == id;
                if k < before.len() {
                    assert(before[k] == id);
                }
            }
            if id == last && configured.contains(id) && !target.contains(id) && !before.contains(id) {
                assert(now[now.len() - 1] == id);
            }
            assert(member[member.len() - 1] == last);
        }
    }
}

/// The roles a member holds once a plan is applied.
pub open spec fn applied(member: Seq<i64>, plan_add: Seq<i64>, plan_remove: Seq<i64>) -> Set<i64> {
    member.to_set().union(plan_add.to_set()).difference(plan_remove.to_set())
}

/// Applying the plan puts the member exactly on the target for every
/// configured reward role (and every target role), and leaves every other
/// role as it was.
pub proof fn lemma_plan_reaches_target(member: Seq<i64>, configured: Seq<i64>, target: Seq<i64>)
    ensures
        forall|id: i64| #![trigger applied(member, plan_add(member, target), plan_remove(member, configured, target)).contains(id)]
            (configured.contains(id) || target.contains(id)) ==> (applied(
                member,
                plan_add(member, target),
                plan_remove(member, configured, target),
            ).contains(id) <==> target.contains(id)),
        forall|id: i64| #![trigger applied(member, plan_add(member, target), plan_remove(member, configured, target)).contains(id)]
            (!configured.contains(id) && !target.contains(id)) ==> (applied(
                member,
                plan_add(member, target),
                plan_remove(member, configured, target),
            ).contains(id) <==> member.contains(id)),
{
    lemma_plan_add(member, target);
    lemma_plan_remove(member, configured, target);
}

/// A member already on target (holding every target role and no other
/// configured role) gets an empty plan.
pub proof fn lemma_plan_idempotent(member: Seq<i64>, configured: Seq<i64>, target: Seq<i64>)
    requires
        forall|id: i64| #[trigger] target.contains(id) ==> member.contains(id),
        forall|id: i64| #[trigger] member.contains(id) && configured.contains(id) ==> target.contains(id),
    ensures
        plan_add(member, target).len() == 0,
        plan_remove(member, configured, target).len() == 0,
{
    lemma_plan_add(member, target);
    lemma_plan_remove(member, configured, target);
    let a = plan_add(member, target);
    let r = plan_remove(member, configured, target);
    if a.len() > 0 {
        assert(a.contains(a[0]));
    }
    if r.len() > 0 {
        assert(r.contains(r[0]));
    }
}

/// Highest position among the bot roles the guild knows, 0 when none is known.
pub open spec fn top_position(bot_roles: Seq<i64>, roles: Map<i64, RoleMeta>) -> u16
    decreases bot_roles.len(),
{
    if bot_roles.len() == 0 {
        0
    } else {
        let before = top_position(bot_roles.drop_last(), roles);
        let id = bot_roles.last();
        if roles.contains_key(id) && roles[id].position > before {
            roles[id].position
        } else {
            before
        }
    }
}

/// Highest role position the bot holds (0 when it only has @everyone or its
/// roles are unknown). Roles missing from `roles` are ignored.
pub fn bot_top_position(bot_roles: &[i64], roles: &HashMap<i64, RoleMeta>) -> (top: u16)
    ensures
        top == top_position(bot_roles@, roles@),
        forall|i: int|
            0 <= i < bot_roles@.len() && roles@.contains_key(#[trigger] bot_roles@[i]) ==> roles@[bot_roles@[i]].position
                <= top,
        top == 0 || exists|i: int|
            0 <= i < bot_roles@.len() && roles@.contains_key(#[trigger] bot_roles@[i]) && roles@[bot_roles@[i]].position
                == top,
{
    broadcast use vstd::std_specs::hash::group_hash_axioms;

    let mut top: u16 = 0;
    let mut i: usize = 0;
    while i < bot_roles.len()
        invariant
            i <= bot_roles.len(),
            top == top_position(bot_roles@.take(i as int), roles@),
        decreases bot_roles.len() - i,
    {
        let id = bot_roles[i];
        assert(bot_roles@.take(i + 1).drop_last() =~= bot_roles@.take(i as int));
        match roles.get(&id) {
            Some(meta) => {
                assert(roles@.contains_key(id) && roles@[id] == *meta);
                if meta.position > top {
                    top = meta.position;
                }
            },
            None => {
                assert(!roles@.contains_key(id));
            },
        }
        i = i + 1;
    }
    assert(bot_roles@.take(bot_roles@.len() as int) =~= bot_roles@);
    proof {
        lemma_bot_top_is_highest(bot_roles@, roles@);
    }
    top
}

/// The bot can hand out or take away a role: it still exists, is not
/// integration-managed and sits strictly below the bot's highest role.
pub open spec fn assignable(roles: Map<i64, RoleMeta>, bot_top: u16, id: i64) -> bool {
    roles.contains_key(id) && !roles[id].managed && roles[id].position < bot_top
}

/// Candidates split into `(assignable, skipped)`, each in input order.
pub open spec fn partition_spec(candidates: Seq<i64>, roles: Map<i64, RoleMeta>, bot_top: u16) -> (
    Seq<i64>,
    Seq<i64>,
)
    decreases candidates.len(),
{
    if candidates.len() == 0 {
        (Seq::empty(), Seq::empty())
    } else {
        let (ok, skipped) = partition_spec(candidates.drop_last(), roles, bot_top);
        let id = candidates.last();
        if assignable(roles, bot_top, id) {
            (ok.push(id), skipped)
        } else {
            (ok, skipped.push(id))
        }
    }
}

/// Splits candidate role ids into `(assignable, skipped)`. A role is
/// assignable when it still exists in the guild, is not integration-managed,
/// and sits STRICTLY below the bot's highest role (equal position is not
/// manageable on Discord).
pub fn filter_assignable(candidates: &[i64], roles: &HashMap<i64, RoleMeta>, bot_top: u16) -> (r: (
    Vec<i64>,
    Vec<i64>,
))
    ensures
        (r.0@, r.1@) == partition_spec(candidates@, roles@, bot_top),
        r.0@.len() + r.1@.len() == candidates@.len(),
        forall|id: i64|
            #[trigger] r.0@.contains(id) <==> (candidates@.contains(id) && roles@.contains_key(id)
                && !roles@[id].managed && roles@[id].position < bot_top),
        forall|id: i64|
            #[trigger] r.1@.contains(id) <==> (candidates@.contains(id) && !(roles@.contains_key(id)
                && !roles@[id].managed && roles@[id].position < bot_top)),
{
    broadcast use vstd::std_specs::hash::group_hash_axioms;

    let mut ok: Vec<i64> = Vec::new();
    let mut skipped: Vec<i64> = Vec::new();
    let mut i: usize = 0;
    while i < candidates.len()
        invariant
            i <= candidates.len(),
            (ok@, skipped@) == partition_spec(candidates@.take(i as int), roles@, bot_top),
        decreases candidates.len() - i,
    {
        let id = candidates[i];
        assert(candidates@.take(i + 1).drop_last() =~= candidates@.take(i as int));
        let can = match roles.get(&id) {
            Some(meta) => {
                assert(roles@.contains_key(id) && roles@[id] == *meta);
                !meta.managed && meta.position < bot_top
            },
            None => {
                assert(!roles@.contains_key(id));
                false
            },
        };
        if can {
            ok.push(id);
        } else {
            skipped.push(id);
        }
        i = i + 1;
    }
    assert(candidates@.take(candidates@.len() as int) =~= candidates@);
    proof {
        lemma_partition(candidates@, roles@, bot_top);
        lemma_assignable_rule(candidates@, roles@, bot_top);
    }
    (ok, skipped)
}

/// Every candidate lands in exactly one side: the assignable side holds
/// only assignable roles, the skipped side only the others.
pub proof fn lemma_partition(candidates: Seq<i64>, roles: Map<i64, RoleMeta>, bot_top: u16)
    ensures
        partition_spec(candidates, roles, bot_top).0.len() + partition_spec(candidates, roles, bot_top).1.len()
            == candidates.len(),
        forall|k: int| 0 <= k < partition_spec(candidates, roles, bot_top).0.len()
            ==> assignable(roles, bot_top, #[trigger] partition_spec(candidates, roles, bot_top).0[k]),
        forall|k: int| 0 <= k < partition_spec(candidates, roles, bot_top).1.len()
            ==> !assignable(roles, bot_top, #[trigger] partition_spec(candidates, roles, bot_top).1[k]),
    decreases candidates.len(),
{
    if candidates.len() > 0 {
        lemma_partition(candidates.drop_last(), roles, bot_top);
    }
}


/// The bot's top position is the highest position among its roles that the
/// guild knows, whatever the order of its role list: no known bot role sits
/// above it, and it is the position of one of them (0 when none is known).
pub proof fn lemma_bot_top_is_highest(bot_roles: Seq<i64>, roles: Map<i64, RoleMeta>)
    ensures
        forall|i: int|
            0 <= i < bot_roles.len() && roles.contains_key(#[trigger] bot_roles[i]) ==> roles[bot_roles[i]].position
                <= top_position(bot_roles, roles),
        top_position(bot_roles, roles) == 0 || exists|i: int|
            0 <= i < bot_roles.len() && roles.contains_key(#[trigger] bot_roles[i]) && roles[bot_roles[i]].position
                == top_position(bot_roles, roles),
    decreases bot_roles.len(),
{
    if bot_roles.len() > 0 {
        let p = bot_roles.drop_last();
        lemma_bot_top_is_highest(p, roles);
        let top = top_position(bot_roles, roles);
        let before = top_position(p, roles);
        assert forall|i: int|
            0 <= i < bot_roles.len() && roles.contains_key(#[trigger] bot_roles[i]) implies roles[bot_roles[i]].position
            <= top by {
            if i < p.len() {
                assert(p[i] == bot_roles[i]);
            }
        }
        if top != 0 {
            if top == before {
                let i = choose|i: int|
                    0 <= i < p.len() && roles.contains_key(#[trigger] p[i]) && roles[p[i]].position == before;
                assert(bot_roles[i] == p[i]);
            } else {
                assert(roles.contains_key(bot_roles[bot_roles.len() - 1]));
            }
        }
    }
}


/// A candidate role is assigned exactly when the guild still has it, it is
/// not integration-managed and it sits strictly below the bot's highest
/// role; every other candidate is skipped.
pub proof fn lemma_assignable_rule(candidates: Seq<i64>, roles: Map<i64, RoleMeta>, bot_top: u16)
    ensures
        forall|id: i64|
            #[trigger] partition_spec(candidates, roles, bot_top).0.contains(id) <==> (candidates.contains(id)
                && roles.contains_key(id) && !roles[id].managed && roles[id].position < bot_top),
        forall|id: i64|
            #[trigger] partition_spec(candidates, roles, bot_top).1.contains(id) <==> (candidates.contains(id)
                && !(roles.contains_key(id) && !roles[id].managed && roles[id].position < bot_top)),
    decreases candidates.len(),
{
    if candidates.len() > 0 {
        let p = candidates.drop_last();
        lemma_assignable_rule(p, roles, bot_top);
        let x = candidates.last();
        let (ok0, sk0) = partition_spec(p, roles, bot_top);
        let (ok, sk) = partition_spec(candidates, roles, bot_top);
        assert forall|id: i64| candidates.contains(id) <==> (p.contains(id) || id == x) by {
            if candidates.contains(id) {
                let k = choose|k: int| 0 <= k < candidates.len() && candidates[k] == id;
                if k < p.len() {
                    assert(p[k] == id);
                }
            }
            if p.contains(id) {
                let k = choose|k: int| 0 <= k < p.len() && p[k] == id;
                assert(candidates[k] == id);
            }
            if id == x {
                assert(candidates[candidates.len() - 1] == id);
            }
        }
        assert forall|id: i64| #[trigger] ok.contains(id) <==> (ok0.contains(id) || (id == x && assignable(roles, bot_top, x))) by {
            if assignable(roles, bot_top, x) {
                assert(ok == ok0.push(x));
                if ok.contains(id) {
                    let k = choose|k: int| 0 <= k < ok.len() && ok[k] == id;
                    if k < ok0.len() {
                        assert(ok0[k] == id);
                    }
                }
                if ok0.contains(id) {
                    let k = choose|k: int| 0 <= k < ok0.len() && ok0[k] == id;
                    assert(ok[k] == id);
                }
                if id == x {
                    assert(ok[ok.len() - 1] == id);
                }
            } else {
                assert(ok == ok0);
            }
        }
        assert forall|id: i64| #[trigger] sk.contains(id) <==> (sk0.contains(id) || (id == x && !assignable(roles, bot_top, x))) by {
            if !assignable(roles, bot_top, x) {
                assert(sk == sk0.push(x));
                if sk.contains(id) {
                    let k = choose|k: int| 0 <= k < sk.len() && sk[k] == id;
                    if k < sk0.len() {
                        assert(sk0[k] == id);
                    }
                }
                if sk0.contains(id) {
                    let k = choose|k: int| 0 <= k < sk0.len() && sk0[k] == id;
                    assert(sk[k] == id);
                }
                if id == x {
                    assert(sk[sk.len() - 1] == id);
                }
            } else {
                assert(sk == sk0);
            }
        }
    }
}

} // verus!
