//! Per-namespace staleness policy for retained-message delivery: how old a
//! retained value on a topic may be before its delivery is flagged.

use crate::config::StalenessRule;
use crate::topic::{self, topic_matches};
use vstd::prelude::*;
use vstd::string::*;

verus! {

/// The per-filter bounds in configuration order, and the node-wide default.
pub struct StalenessPolicy {
    rules: Vec<StalenessRule>,
    default_secs: u64,
}

impl View for StalenessPolicy {
    type V = (Seq<StalenessRule>, u64);

    closed spec fn view(&self) -> (Seq<StalenessRule>, u64) {
        (self.rules@, self.default_secs)
    }
}

/// The bound of the first rule whose filter matches the topic, else the default.
pub open spec fn bound(rules: Seq<StalenessRule>, default_secs: u64, topic: Seq<char>) -> u64
    decreases rules.len(),
{
    if rules.len() == 0 {
        default_secs
    } else if topic::filter_matches(rules[0].filter@, topic) {
        rules[0].bound_secs
    } else {
        bound(rules.skip(1), default_secs, topic)
    }
}

/// Whether a value of some age (in milliseconds) is flagged under a bound in
/// seconds: it is where it is older than the bound. A bound of 0 never flags.
pub open spec fn is_stale(bound_secs: u64, age_millis: nat) -> bool {
    bound_secs != 0 && age_millis > bound_secs * 1000
}

impl StalenessPolicy {
    pub fn new(rules: Vec<StalenessRule>, default_secs: u64) -> (r: Self)
        ensures
            r@ == (rules@, default_secs),
    {
        StalenessPolicy { rules, default_secs }
    }

    /// The staleness bound in seconds for a topic; 0 = never flag. The first rule
    /// in configuration order whose filter matches wins.
    pub fn bound_secs(&self, topic_name: &str) -> (r: u64)
        ensures
            r == bound(self@.0, self@.1, topic_name@),
    {
        assert(self.rules@.skip(0) =~= self.rules@);
        let mut i: usize = 0;
        while i < self.rules.len()
            invariant
                i <= self.rules@.len(),
                bound(self.rules@, self.default_secs, topic_name@) == bound(
                    self.rules@.skip(i as int),
                    self.default_secs,
                    topic_name@,
                ),
            decreases self.rules.len() - i,
        {
            assert(self.rules@.skip(i as int).skip(1) =~= self.rules@.skip(i + 1));
            if topic_matches(self.rules[i].filter.as_str(), topic_name) {
                return self.rules[i].bound_secs;
            }
            i = i + 1;
        }
        self.default_secs
    }
}

/// The first matching rule decides, whatever stands after it.
pub proof fn law_first_match_decides(
    rules: Seq<StalenessRule>,
    default_secs: u64,
    topic: Seq<char>,
    i: int,
)
    requires
        0 <= i < rules.len(),
        topic::filter_matches(rules[i].filter@, topic),
        forall|j: int|
            0 <= j < i ==> !topic::filter_matches((#[trigger] rules[j]).filter@, topic),
    ensures
        bound(rules, default_secs, topic) == rules[i].bound_secs,
    decreases i,
{
    if i > 0 {
        assert(!topic::filter_matches(rules[0].filter@, topic));
        let rest = rules.skip(1);
        assert forall|j: int| 0 <= j < i - 1 implies !topic::filter_matches(
            (#[trigger] rest[j]).filter@,
            topic,
        ) by {
            assert(rest[j] == rules[j + 1]);
        }
        law_first_match_decides(rest, default_secs, topic, i - 1);
    }
}

/// A topic that no rule matches has the default bound.
pub proof fn law_default_without_match(
    rules: Seq<StalenessRule>,
    default_secs: u64,
    topic: Seq<char>,
)
    requires
        forall|j: int|
            0 <= j < rules.len() ==> !topic::filter_matches((#[trigger] rules[j]).filter@, topic),
    ensures
        bound(rules, default_secs, topic) == default_secs,
    decreases rules.len(),
{
    if rules.len() > 0 {
        assert(!topic::filter_matches(rules[0].filter@, topic));
        let rest = rules.skip(1);
        assert forall|j: int| 0 <= j < rest.len() implies !topic::filter_matches(
            (#[trigger] rest[j]).filter@,
            topic,
        ) by {
            assert(rest[j] == rules[j + 1]);
        }
        law_default_without_match(rest, default_secs, topic);
    }
}

/// A value that is stale stays stale as it ages.
pub proof fn law_staleness_is_monotone(bound_secs: u64, age_millis: nat, later_millis: nat)
    requires
        is_stale(bound_secs, age_millis),
        age_millis <= later_millis,
    ensures
        is_stale(bound_secs, later_millis),
{
}

} // verus!
