use entmoot::config::{SchemaFailAction, SchemaRule};
use entmoot::schema::{invalid_schema, not_json, SchemaPolicy, Verdict};

fn rule(filter: &str, schema: &str, on_fail: SchemaFailAction) -> SchemaRule {
    SchemaRule { filter: filter.into(), schema: schema.into(), on_fail }
}

#[test]
fn unmatched_topic_passes() {
    let p = SchemaPolicy::new(vec![rule(
        "plant/+/temp",
        r#"{"type":"object","required":["value"]}"#,
        SchemaFailAction::Drop,
    )])
    .unwrap();
    assert_eq!(p.check("plant/kiln1/pressure", b"not even json"), Verdict::Pass);
}

#[test]
fn matched_topic_enforces_schema() {
    let p = SchemaPolicy::new(vec![rule(
        "plant/+/temp",
        r#"{"type":"object","properties":{"value":{"type":"number"}},"required":["value"]}"#,
        SchemaFailAction::Drop,
    )])
    .unwrap();
    assert_eq!(p.check("plant/kiln1/temp", br#"{"value": 93.5}"#), Verdict::Pass);
    assert_eq!(
        p.check("plant/kiln1/temp", br#"{"value": "hot"}"#),
        Verdict::Fail(SchemaFailAction::Drop)
    );
    assert_eq!(p.check("plant/kiln1/temp", b"not json"), Verdict::Fail(SchemaFailAction::Drop));
}

#[test]
fn first_matching_rule_wins_and_action_is_configurable() {
    let p = SchemaPolicy::new(vec![
        rule("plant/kiln1/#", r#"{"type":"object"}"#, SchemaFailAction::Disconnect),
        rule("plant/#", r#"{"type":"object"}"#, SchemaFailAction::Drop),
    ])
    .unwrap();
    assert_eq!(
        p.check("plant/kiln1/temp", b"[1,2,3]"),
        Verdict::Fail(SchemaFailAction::Disconnect)
    );
    assert_eq!(p.check("plant/oven2/temp", b"[1,2,3]"), Verdict::Fail(SchemaFailAction::Drop));
}

#[test]
fn invalid_schema_is_rejected_at_construction() {
    let err = SchemaPolicy::new(vec![rule("a", r#"{"type": "not-a-real-type"}"#, SchemaFailAction::Drop)]);
    assert!(err.is_err());
}

#[test]
fn the_complaint_names_the_filter() {
    let bad_json = SchemaPolicy::new(vec![rule("plant/\"x\"", "{not valid json", SchemaFailAction::Drop)]);
    let text = bad_json.err().unwrap();
    assert!(text.starts_with("schema for filter \"plant/\\\"x\\\"\" is not valid JSON: "), "{text}");
    let bad_schema = SchemaPolicy::new(vec![
        rule("ok", "{}", SchemaFailAction::Drop),
        rule("a", r#"{"type": "not-a-real-type"}"#, SchemaFailAction::Drop),
    ]);
    let text = bad_schema.err().unwrap();
    assert!(text.starts_with("schema for filter \"a\" is invalid: "), "{text}");
}

#[test]
fn the_verdict_follows_the_answer_of_the_validator() {
    let p = SchemaPolicy::new(vec![rule("a", "{}", SchemaFailAction::Disconnect)]).unwrap();
    assert_eq!(p.judge("a", true), Verdict::Pass);
    assert_eq!(p.judge("a", false), Verdict::Fail(SchemaFailAction::Disconnect));
    assert_eq!(p.judge("b", false), Verdict::Pass);
}

#[test]
fn complaints_in_words() {
    assert_eq!(invalid_schema("a/\"b", "no good"), "schema for filter \"a/\\\"b\" is invalid: no good");
    assert_eq!(not_json("a", "no good"), "schema for filter \"a\" is not valid JSON: no good");
}

#[test]
fn references_out_of_the_schema_cannot_be_used() {
    let schema = r#"{"allOf":[{"$ref":"http://a.example/x"},{"$ref":"http://b.example/y"}]}"#;
    for _ in 0..5 {
        let text = SchemaPolicy::new(vec![rule("a", schema, SchemaFailAction::Drop)]).err().unwrap();
        assert!(text.starts_with("schema for filter \"a\" is invalid: "), "{text}");
    }
    let local = r##"{"$ref":"#/$defs/n","$defs":{"n":{"type":"number"}}}"##;
    let p = SchemaPolicy::new(vec![rule("a", local, SchemaFailAction::Drop)]).unwrap();
    assert_eq!(p.check("a", b"7"), Verdict::Pass);
    assert_eq!(p.check("a", b"\"7\""), Verdict::Fail(SchemaFailAction::Drop));
}

#[test]
fn what_is_no_json_fails_even_a_schema_that_accepts_all() {
    let p = SchemaPolicy::new(vec![rule("a", "true", SchemaFailAction::Disconnect)]).unwrap();
    assert_eq!(p.check("a", b"{}"), Verdict::Pass);
    for payload in [&b""[..], b"{", b"\xff", b"1 2"] {
        assert_eq!(p.check("a", payload), Verdict::Fail(SchemaFailAction::Disconnect));
    }
}
