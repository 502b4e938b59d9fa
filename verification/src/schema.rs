//! Data validation: a publish on a matching topic must conform to a JSON Schema, or a
//! configured action applies. The decision is made per message and per node.

use crate::config::{SchemaFailAction, SchemaRule};
use crate::text;
use crate::topic::{self, topic_matches};
use vstd::prelude::*;
use vstd::string::*;

verus! {

/// What `serde_json` finds wrong with a text as JSON; `None` for valid JSON.
pub uninterp spec fn json_fault(text: Seq<char>) -> Option<Seq<char>>;

/// Calls `serde_json::from_str` for a `Value`: its complaint is a function of the
/// text alone.
#[verifier::external_body]
fn json_error(text: &str) -> (r: Option<String>)
    ensures
        text::opt_string(r) == json_fault(text@),
{
    serde_json::from_str::<serde_json::Value>(text).err().map(|e| e.to_string())
}

/// A `jsonschema::Validator`: a schema made ready for use. What one answers is
/// [`validates`].
#[verifier::external_body]
pub struct Compiled {
    inner: jsonschema::Validator,
}

/// Whether `jsonschema` can use a JSON text as a schema.
pub uninterp spec fn schema_usable(schema: Seq<char>) -> bool;

/// Whether a JSON payload conforms to a schema.
pub uninterp spec fn schema_accepts(schema: Seq<char>, payload: Seq<u8>) -> bool;

/// Whether a validator accepts a JSON payload.
pub uninterp spec fn validates(validator: Compiled, payload: Seq<u8>) -> bool;

/// Calls `jsonschema::Validator::new`: whether the schema can be used, and which payloads
/// its validator accepts, are functions of the schema alone. The complaint about a schema
/// that cannot be used is left unsaid: of several faults the call may name any.
#[verifier::external_body]
fn compile(schema: &str) -> (r: Result<Compiled, String>)
    requires
        json_fault(schema@) is None,
    ensures
        r is Ok <==> schema_usable(schema@),
        r matches Ok(v) ==> forall|payload: Seq<u8>| #[trigger]
            validates(v, payload) == schema_accepts(schema@, payload),
{
    let value: serde_json::Value = serde_json::from_str(schema).unwrap();
    match jsonschema::Validator::new(&value) {
        Ok(inner) => Ok(Compiled { inner }),
        Err(e) => Err(e.to_string()),
    }
}

/// Whether bytes are a JSON text.
pub uninterp spec fn is_json(payload: Seq<u8>) -> bool;

/// Calls `serde_json::from_slice` for a `Value`: whether it succeeds is a function of the
/// bytes alone.
#[verifier::external_body]
fn parses(payload: &[u8]) -> (r: bool)
    ensures
        r == is_json(payload@),
{
    serde_json::from_slice::<serde_json::Value>(payload).is_ok()
}

/// Calls `jsonschema::Validator::is_valid` on a payload that is JSON: the answer is a
/// function of the validator and the payload alone.
#[verifier::external_body]
fn conforms(validator: &Compiled, payload: &[u8]) -> (r: bool)
    requires
        is_json(payload@),
    ensures
        r == validates(*validator, payload@),
{
    let value: serde_json::Value = serde_json::from_slice(payload).unwrap();
    validator.inner.is_valid(&value)
}

#[derive(Debug, Clone, Copy, PartialEq, Eq, Structural)]
pub enum Verdict {
    /// No rule matched this topic, or the rule's schema was satisfied.
    Pass,
    /// A rule matched and the publish failed it: it was not JSON at all, or did not
    /// conform to the schema.
    Fail(SchemaFailAction),
}

/// The rules in configuration order, and a validator for the schema of each.
pub struct SchemaPolicy {
    rules: Vec<SchemaRule>,
    validators: Vec<Compiled>,
}

impl View for SchemaPolicy {
    type V = Seq<SchemaRule>;

    closed spec fn view(&self) -> Seq<SchemaRule> {
        self.rules@
    }
}

/// A schema that can be used.
pub open spec fn usable(schema: Seq<char>) -> bool {
    json_fault(schema) is None && schema_usable(schema)
}

/// The first rule whose filter matches the topic.
pub open spec fn governing_rule(rules: Seq<SchemaRule>, topic: Seq<char>) -> Option<SchemaRule>
    decreases rules.len(),
{
    if rules.len() == 0 {
        None
    } else if topic::filter_matches(rules[0].filter@, topic) {
        Some(rules[0])
    } else {
        governing_rule(rules.skip(1), topic)
    }
}

/// The verdict of a rule, given whether the payload conforms to its schema.
pub open spec fn rule_verdict(rule: Option<SchemaRule>, conforming: bool) -> Verdict {
    match rule {
        Some(r) => if conforming {
            Verdict::Pass
        } else {
            Verdict::Fail(r.on_fail)
        },
        None => Verdict::Pass,
    }
}

/// Whether a payload conforms to a schema: what is no JSON does not.
pub open spec fn conforming(schema: Seq<char>, payload: Seq<u8>) -> bool {
    is_json(payload) && schema_accepts(schema, payload)
}

/// The verdict of all rules on a publish.
pub open spec fn policy_verdict(
    rules: Seq<SchemaRule>,
    topic: Seq<char>,
    payload: Seq<u8>,
) -> Verdict {
    match governing_rule(rules, topic) {
        Some(r) => rule_verdict(Some(r), conforming(r.schema@, payload)),
        None => Verdict::Pass,
    }
}

/// The position of the first rule whose schema cannot be used.
pub open spec fn first_fault(rules: Seq<SchemaRule>) -> Option<nat>
    decreases rules.len(),
{
    if rules.len() == 0 {
        None
    } else {
        match first_fault(rules.drop_last()) {
            Some(i) => Some(i),
            None => if usable(rules.last().schema@) {
                None
            } else {
                Some((rules.len() - 1) as nat)
            },
        }
    }
}

/// The words for a schema that is no JSON.
pub open spec fn not_json_text(filter: Seq<char>, complaint: Seq<char>) -> Seq<char> {
    "schema for filter "@ + text::quoted(filter) + " is not valid JSON: "@ + complaint
}

/// The words for a JSON text that is no schema.
pub open spec fn invalid_text(filter: Seq<char>, complaint: Seq<char>) -> Seq<char> {
    "schema for filter "@ + text::quoted(filter) + " is invalid: "@ + complaint
}

/// Whether a text tells what is wrong with a rule whose schema cannot be used.
pub open spec fn tells_fault(rule: SchemaRule, e: Seq<char>) -> bool {
    match json_fault(rule.schema@) {
        Some(complaint) => e == not_json_text(rule.filter@, complaint),
        None => exists|complaint: Seq<char>| e == #[trigger] invalid_text(rule.filter@, complaint),
    }
}

/// Whether rules are refused with a text: it tells of the first whose schema cannot be
/// used.
pub open spec fn refused(rules: Seq<SchemaRule>, e: Seq<char>) -> bool {
    first_fault(rules) matches Some(i) && tells_fault(rules[i as int], e)
}

/// Tells of a schema that is no JSON.
pub fn not_json(filter: &str, complaint: &str) -> (r: String)
    ensures
        r@ == not_json_text(filter@, complaint@),
{
    let mut out = "schema for filter ".to_owned();
    out.append(text::quote(filter).as_str());
    out.append(" is not valid JSON: ");
    out.append(complaint);
    out
}

/// Tells of a JSON text that is no schema.
pub fn invalid_schema(filter: &str, complaint: &str) -> (r: String)
    ensures
        r@ == invalid_text(filter@, complaint@),
{
    let mut out = "schema for filter ".to_owned();
    out.append(text::quote(filter).as_str());
    out.append(" is invalid: ");
    out.append(complaint);
    out
}

/// Whether a validator is one for a schema.
spec fn is_for(validator: Compiled, schema: Seq<char>) -> bool {
    forall|payload: Seq<u8>| #[trigger]
        validates(validator, payload) == schema_accepts(schema, payload)
}

/// The validator for a rule, or what is wrong with it.
fn compile_rule(rule: &SchemaRule) -> (r: Result<Compiled, String>)
    ensures
        match r {
            Ok(v) => usable(rule.schema@) && is_for(v, rule.schema@),
            Err(e) => !usable(rule.schema@) && tells_fault(*rule, e@),
        },
{
    if let Some(complaint) = json_error(rule.schema.as_str()) {
        return Err(not_json(rule.filter.as_str(), complaint.as_str()));
    }
    match compile(rule.schema.as_str()) {
        Ok(v) => Ok(v),
        Err(complaint) => Err(invalid_schema(rule.filter.as_str(), complaint.as_str())),
    }
}

impl SchemaPolicy {
    #[verifier::type_invariant]
    spec fn inv(&self) -> bool {
        &&& self.validators@.len() == self.rules@.len()
        &&& forall|i: int|
            0 <= i < self.rules@.len() ==> is_for(
                #[trigger] self.validators@[i],
                self.rules@[i].schema@,
            )
    }

    /// Makes every configured schema ready up front, so that a malformed one is an error
    /// at startup.
    pub fn new(rules: Vec<SchemaRule>) -> (r: Result<Self, String>)
        ensures
            match r {
                Ok(p) => first_fault(rules@) is None && p@ == rules@,
                Err(e) => refused(rules@, e@),
            },
    {
        let mut validators: Vec<Compiled> = Vec::new();
        let mut i: usize = 0;
        while i < rules.len()
            invariant
                i <= rules@.len(),
                first_fault(rules@.take(i as int)) is None,
                validators@.len() == i,
                forall|k: int|
                    0 <= k < i ==> is_for(#[trigger] validators@[k], rules@[k].schema@),
            decreases rules.len() - i,
        {
            assert(rules@.take(i + 1).drop_last() =~= rules@.take(i as int));
            match compile_rule(&rules[i]) {
                Ok(v) => validators.push(v),
                Err(e) => {
                    proof {
                        lemma_first_fault_stays(rules@, i + 1);
                    }
                    return Err(e);
                },
            }
            i = i + 1;
        }
        assert(rules@.take(i as int) =~= rules@);
        Ok(SchemaPolicy { rules, validators })
    }

    /// The first rule in configuration order whose filter matches decides; topics
    /// that match none are unvalidated. A payload that is no JSON fails every rule.
    pub fn check(&self, topic_name: &str, payload: &[u8]) -> (r: Verdict)
        ensures
            r == policy_verdict(self@, topic_name@, payload@),
    {
        proof {
            use_type_invariant(self);
        }
        match self.rule_for(topic_name) {
            Some(i) => {
                let validator = &self.validators[i];
                assert(is_for(self.validators@[i as int], self.rules@[i as int].schema@));
                let conforming = parses(payload) && conforms(validator, payload);
                self.judge(topic_name, conforming)
            },
            None => Verdict::Pass,
        }
    }

    /// The verdict on a publish, given whether its payload conforms to the schema of
    /// the rule that governs its topic.
    pub fn judge(&self, topic_name: &str, conforming: bool) -> (r: Verdict)
        ensures
            r == rule_verdict(governing_rule(self@, topic_name@), conforming),
    {
        match self.rule_for(topic_name) {
            Some(i) => if conforming {
                Verdict::Pass
            } else {
                Verdict::Fail(self.rules[i].on_fail)
            },
            None => Verdict::Pass,
        }
    }

    /// The position of the rule that governs a topic.
    fn rule_for(&self, topic_name: &str) -> (r: Option<usize>)
        ensures
            match r {
                Some(i) => i < self.rules@.len() && governing_rule(self.rules@, topic_name@) == Some(
                    self.rules@[i as int],
                ),
                None => governing_rule(self.rules@, topic_name@) is None,
            },
    {
        let mut i: usize = 0;
        assert(self.rules@.skip(0) =~= self.rules@);
        while i < self.rules.len()
            invariant
                i <= self.rules@.len(),
                governing_rule(self.rules@, topic_name@) == governing_rule(
                    self.rules@.skip(i as int),
                    topic_name@,
                ),
            decreases self.rules.len() - i,
        {
            assert(self.rules@.skip(i as int).skip(1) =~= self.rules@.skip(i + 1));
            if topic_matches(self.rules[i].filter.as_str(), topic_name) {
                return Some(i);
            }
            i = i + 1;
        }
        None
    }
}

proof fn lemma_first_fault_stays(rules: Seq<SchemaRule>, n: int)
    requires
        0 <= n <= rules.len(),
        first_fault(rules.take(n)) is Some,
    ensures
        first_fault(rules) == first_fault(rules.take(n)),
    decreases rules.len() - n,
{
    if n < rules.len() {
        assert(rules.take(n + 1).drop_last() =~= rules.take(n));
        lemma_first_fault_stays(rules, n + 1);
    } else {
        assert(rules.take(n) =~= rules);
    }
}

/// The first matching rule decides a publish, whatever stands after it.
pub proof fn law_first_match_decides(
    rules: Seq<SchemaRule>,
    topic: Seq<char>,
    payload: Seq<u8>,
    i: int,
)
    requires
        0 <= i < rules.len(),
        topic::filter_matches(rules[i].filter@, topic),
        forall|j: int|
            0 <= j < i ==> !topic::filter_matches((#[trigger] rules[j]).filter@, topic),
    ensures
        policy_verdict(rules, topic, payload) == (if conforming(rules[i].schema@, payload) {
            Verdict::Pass
        } else {
            Verdict::Fail(rules[i].on_fail)
        }),
    decreases i,
{
    if i > 0 {
        assert(!topic::filter_matches(rules[0].filter@, topic));
        let rest = rules.skip(1);
        assert forall|j: int| 0 <= j < i - 1 implies !topic::filter_matches(
            (#[trigger] rest[j]).filter@,
            topic,
        ) by {
            assert(rest[j] == rules[j + 1]);
        }
        law_first_match_decides(rest, topic, payload, i - 1);
    }
}

/// A payload that is no JSON fails on every topic that a rule governs.
pub proof fn law_only_json_passes_a_rule(
    rules: Seq<SchemaRule>,
    topic: Seq<char>,
    payload: Seq<u8>,
)
    requires
        !is_json(payload),
        governing_rule(rules, topic) is Some,
    ensures
        policy_verdict(rules, topic, payload) == Verdict::Fail(
            governing_rule(rules, topic)->0.on_fail,
        ),
{
}

/// A topic that no rule matches is unvalidated.
pub proof fn law_unmatched_topics_pass(rules: Seq<SchemaRule>, topic: Seq<char>, payload: Seq<u8>)
    requires
        forall|j: int|
            0 <= j < rules.len() ==> !topic::filter_matches((#[trigger] rules[j]).filter@, topic),
    ensures
        policy_verdict(rules, topic, payload) == Verdict::Pass,
    decreases rules.len(),
{
    if rules.len() > 0 {
        assert(!topic::filter_matches(rules[0].filter@, topic));
        let rest = rules.skip(1);
        assert forall|j: int| 0 <= j < rest.len() implies !topic::filter_matches(
            (#[trigger] rest[j]).filter@,
            topic,
        ) by {
            assert(rest[j] == rules[j + 1]);
        }
        law_unmatched_topics_pass(rest, topic, payload);
    }
}

/// One unusable schema anywhere makes the whole list unusable.
pub proof fn law_one_bad_schema_spoils_all(rules: Seq<SchemaRule>, i: int)
    requires
        0 <= i < rules.len(),
        !usable(rules[i].schema@),
    ensures
        first_fault(rules) is Some,
    decreases rules.len(),
{
    if i < rules.len() - 1 {
        law_one_bad_schema_spoils_all(rules.drop_last(), i);
    }
}

} // verus!
