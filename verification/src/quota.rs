//! Per-identity connection quotas: the configured caps, and the count of the
//! connections that each identity holds on this node.
//!
//! The node-wide `max_connections` is a ceiling regardless of who connects; a
//! quota rule caps one identity below it, so that no single tenant can take
//! every slot. The lookup is a local policy; the counts are runtime state.

use crate::config::QuotaRule;
use crate::strmap::StrMap;
use vstd::prelude::*;
use vstd::string::*;

verus! {

/// The configured caps, in configuration order.
pub struct QuotaPolicy {
    rules: Vec<QuotaRule>,
}

impl View for QuotaPolicy {
    type V = Seq<QuotaRule>;

    closed spec fn view(&self) -> Seq<QuotaRule> {
        self.rules@
    }
}

/// The first rule written for `user`.
pub open spec fn first_rule(rules: Seq<QuotaRule>, user: Seq<char>) -> Option<QuotaRule>
    decreases rules.len(),
{
    if rules.len() == 0 {
        None
    } else {
        match first_rule(rules.drop_last(), user) {
            Some(r) => Some(r),
            None => if rules.last().user@ == user {
                Some(rules.last())
            } else {
                None
            },
        }
    }
}

/// The rule that governs an identity: its own before the "*" one.
pub open spec fn governing_rule(rules: Seq<QuotaRule>, identity: Seq<char>) -> Option<QuotaRule> {
    match first_rule(rules, identity) {
        Some(r) => Some(r),
        None => first_rule(rules, "*"@),
    }
}

/// The cap on an identity's connections; a rule of 0 means no cap.
pub open spec fn cap(rules: Seq<QuotaRule>, identity: Seq<char>) -> Option<usize> {
    match governing_rule(rules, identity) {
        Some(r) => if r.max_connections > 0 {
            Some(r.max_connections)
        } else {
            None
        },
        None => None,
    }
}

impl QuotaPolicy {
    pub fn new(rules: Vec<QuotaRule>) -> (r: Self)
        ensures
            r@ == rules@,
    {
        QuotaPolicy { rules }
    }

    /// The connection cap for `identity`: its own rule wins over "*". `None` means
    /// that only the node-wide ceiling applies, and so does a rule of 0.
    pub fn max_connections_for(&self, identity: &str) -> (r: Option<usize>)
        ensures
            r == cap(self@, identity@),
    {
        let own = self.rule_named(identity);
        let rule = match own {
            Some(i) => Some(i),
            None => self.rule_named("*"),
        };
        match rule {
            Some(i) => if self.rules[i].max_connections > 0 {
                Some(self.rules[i].max_connections)
            } else {
                None
            },
            None => None,
        }
    }

    /// The position of the first rule written for `user`.
    fn rule_named(&self, user: &str) -> (r: Option<usize>)
        ensures
            match r {
                Some(i) => i < self@.len() && first_rule(self@, user@) == Some(self@[i as int]),
                None => first_rule(self@, user@) is None,
            },
    {
        let mut i: usize = 0;
        let mut found: Option<usize> = None;
        while i < self.rules.len()
            invariant
                i <= self.rules@.len(),
                match found {
                    Some(j) => j < i && first_rule(self.rules@.take(i as int), user@) == Some(
                        self.rules@[j as int],
                    ),
                    None => first_rule(self.rules@.take(i as int), user@) is None,
                },
            decreases self.rules.len() - i,
        {
            proof {
                assert(self.rules@.take(i + 1).drop_last() =~= self.rules@.take(i as int));
            }
            if found.is_none() && *self.rules[i].user.as_str() == *user {
                found = Some(i);
            }
            i = i + 1;
        }
        proof {
            assert(self.rules@.take(i as int) =~= self.rules@);
        }
        found
    }
}

/// The first rule for a name is the first in configuration order.
proof fn lemma_first_rule(rules: Seq<QuotaRule>, user: Seq<char>, i: int)
    requires
        0 <= i < rules.len(),
        rules[i].user@ == user,
        forall|j: int| 0 <= j < i ==> (#[trigger] rules[j]).user@ != user,
    ensures
        first_rule(rules, user) == Some(rules[i]),
    decreases rules.len(),
{
    if i == rules.len() - 1 {
        lemma_no_rule(rules.drop_last(), user);
    } else {
        lemma_first_rule(rules.drop_last(), user, i);
    }
}

proof fn lemma_no_rule(rules: Seq<QuotaRule>, user: Seq<char>)
    requires
        forall|j: int| 0 <= j < rules.len() ==> (#[trigger] rules[j]).user@ != user,
    ensures
        first_rule(rules, user) is None,
    decreases rules.len(),
{
    if rules.len() > 0 {
        lemma_no_rule(rules.drop_last(), user);
    }
}

/// An identity's own first rule decides its cap, whatever "*" or other rules say.
pub proof fn law_own_rule_wins(rules: Seq<QuotaRule>, identity: Seq<char>, i: int)
    requires
        0 <= i < rules.len(),
        rules[i].user@ == identity,
        forall|j: int| 0 <= j < i ==> (#[trigger] rules[j]).user@ != identity,
    ensures
        cap(rules, identity) == (if rules[i].max_connections > 0 {
            Some(rules[i].max_connections)
        } else {
            None
        }),
{
    lemma_first_rule(rules, identity, i);
}

/// An identity without a rule of its own gets the cap of the first "*" rule.
pub proof fn law_wildcard_is_the_fallback(rules: Seq<QuotaRule>, identity: Seq<char>, i: int)
    requires
        forall|j: int| 0 <= j < rules.len() ==> (#[trigger] rules[j]).user@ != identity,
        0 <= i < rules.len(),
        rules[i].user@ == "*"@,
        forall|j: int| 0 <= j < i ==> (#[trigger] rules[j]).user@ != "*"@,
    ensures
        cap(rules, identity) == (if rules[i].max_connections > 0 {
            Some(rules[i].max_connections)
        } else {
            None
        }),
{
    lemma_no_rule(rules, identity);
    lemma_first_rule(rules, "*"@, i);
}

/// An identity that no rule speaks of is not capped.
pub proof fn law_no_rule_no_cap(rules: Seq<QuotaRule>, identity: Seq<char>)
    requires
        forall|j: int|
            0 <= j < rules.len() ==> (#[trigger] rules[j]).user@ != identity && rules[j].user@
                != "*"@,
    ensures
        cap(rules, identity) is None,
{
    lemma_no_rule(rules, identity);
    lemma_no_rule(rules, "*"@);
}

/// How many connections each identity holds on this node.
pub struct IdentityConns {
    counts: StrMap<usize>,
}

/// Whether a cap leaves room for one connection more; without one, the width of the
/// counter is the limit.
pub open spec fn has_room(count: nat, limit: Option<usize>) -> bool {
    match limit {
        Some(l) => count < l,
        None => count < usize::MAX,
    }
}

impl IdentityConns {
    pub closed spec fn wf(&self) -> bool {
        &&& self.counts.wf()
        &&& forall|k: Seq<char>| #[trigger]
            self.counts@.dom().contains(k) ==> self.counts@[k] > 0
    }

    /// The connections that `identity` holds.
    pub closed spec fn count(&self, identity: Seq<char>) -> nat {
        if self.counts@.dom().contains(identity) {
            self.counts@[identity] as nat
        } else {
            0
        }
    }

    pub fn new() -> (r: Self)
        ensures
            r.wf(),
            forall|k: Seq<char>| r.count(k) == 0,
    {
        IdentityConns { counts: StrMap::new() }
    }

    /// Adds one connection for `identity` if `limit` leaves room (`None` =
    /// unlimited). Answers false, and counts nothing, at the cap.
    pub fn try_admit(&mut self, identity: &str, limit: Option<usize>) -> (r: bool)
        requires
            old(self).wf(),
        ensures
            final(self).wf(),
            r == has_room(old(self).count(identity@), limit),
            final(self).count(identity@) == old(self).count(identity@) + (if r {
                1nat
            } else {
                0nat
            }),
            forall|k: Seq<char>|
                k != identity@ ==> #[trigger] final(self).count(k) == old(self).count(k),
    {
        let held: usize = match self.counts.get(identity) {
            Some(n) => *n,
            None => 0,
        };
        let full = match limit {
            Some(l) => held >= l,
            None => held == usize::MAX,
        };
        if full {
            return false;
        }
        self.counts.insert(identity.to_owned(), held + 1);
        true
    }

    /// Gives one connection of `identity` back.
    pub fn release(&mut self, identity: &str)
        requires
            old(self).wf(),
        ensures
            final(self).wf(),
            final(self).count(identity@) == (if old(self).count(identity@) > 0 {
                (old(self).count(identity@) - 1) as nat
            } else {
                0
            }),
            forall|k: Seq<char>|
                k != identity@ ==> #[trigger] final(self).count(k) == old(self).count(k),
    {
        let held: usize = match self.counts.get(identity) {
            Some(n) => *n,
            None => 0,
        };
        if held > 1 {
            self.counts.insert(identity.to_owned(), held - 1);
        } else if held == 1 {
            self.counts.remove(identity);
        }
    }
}

impl Default for IdentityConns {
    fn default() -> (r: Self)
        ensures
            r.wf(),
            forall|k: Seq<char>| r.count(k) == 0,
    {
        IdentityConns::new()
    }
}

/// What happens to an identity's count: a connection asks for a slot under some
/// cap, or one ends.
pub enum CountStep {
    Admit(Option<usize>),
    Release,
}

/// The count after a history of steps from none.
pub open spec fn count_after(steps: Seq<CountStep>) -> nat
    decreases steps.len(),
{
    if steps.len() == 0 {
        0
    } else {
        let before = count_after(steps.drop_last());
        match steps.last() {
            CountStep::Admit(limit) => if has_room(before, limit) {
                before + 1
            } else {
                before
            },
            CountStep::Release => if before > 0 {
                (before - 1) as nat
            } else {
                0
            },
        }
    }
}

/// Under a constant cap no history of connects and disconnects exceeds it.
pub proof fn law_count_stays_under_cap(steps: Seq<CountStep>, limit: usize)
    requires
        forall|i: int|
            0 <= i < steps.len() ==> ((#[trigger] steps[i]) matches CountStep::Admit(l) ==> l == Some(
                limit,
            )),
    ensures
        count_after(steps) <= limit,
    decreases steps.len(),
{
    if steps.len() > 0 {
        law_count_stays_under_cap(steps.drop_last(), limit);
        assert(steps.last() == steps[steps.len() - 1]);
    }
}

/// At the cap, one release makes room for exactly one connection.
pub proof fn law_release_frees_one_slot(steps: Seq<CountStep>, limit: usize)
    requires
        count_after(steps) == limit,
        limit > 0,
    ensures
        !has_room(count_after(steps), Some(limit)),
        has_room(count_after(steps.push(CountStep::Release)), Some(limit)),
        !has_room(
            count_after(steps.push(CountStep::Release).push(CountStep::Admit(Some(limit)))),
            Some(limit),
        ),
{
    let released = steps.push(CountStep::Release);
    let again = released.push(CountStep::Admit(Some(limit)));
    assert(released.drop_last() =~= steps);
    assert(again.drop_last() =~= released);
}

} // verus!
