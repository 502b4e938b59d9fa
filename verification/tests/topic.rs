use entmoot::topic::{
    filter_covers, filter_to_keyexpr, keyexpr_to_topic, meta_keyexpr, retained_filter,
    retained_keyexpr, retained_keyexpr_to_topic, sys_keyexpr, topic_matches, topic_to_keyexpr,
    TopicError,
};

#[test]
fn plain_topics_map_verbatim() {
    assert_eq!(topic_to_keyexpr("plant/kiln1/temp", "").unwrap(), "plant/kiln1/temp");
    assert_eq!(topic_to_keyexpr("a", "").unwrap(), "a");
}

#[test]
fn scope_is_prefixed_and_stripped() {
    assert_eq!(topic_to_keyexpr("a/b", "entmoot").unwrap(), "entmoot/a/b");
    assert_eq!(keyexpr_to_topic("entmoot/a/b", "entmoot").as_deref(), Some("a/b"));
    assert_eq!(keyexpr_to_topic("other/a/b", "entmoot"), None);
    assert_eq!(keyexpr_to_topic("a/b", "").as_deref(), Some("a/b"));
}

#[test]
fn wildcards_translate() {
    assert_eq!(filter_to_keyexpr("plant/+/temp", "").unwrap(), "plant/*/temp");
    assert_eq!(filter_to_keyexpr("plant/#", "").unwrap(), "plant/**");
    assert_eq!(filter_to_keyexpr("#", "").unwrap(), "**");
    assert_eq!(filter_to_keyexpr("+", "").unwrap(), "*");
}

#[test]
fn invalid_shapes_are_rejected() {
    assert_eq!(topic_to_keyexpr("", ""), Err(TopicError::Empty));
    assert_eq!(topic_to_keyexpr("a//b", ""), Err(TopicError::EmptyLevel));
    assert_eq!(topic_to_keyexpr("/a", ""), Err(TopicError::EmptyLevel));
    assert_eq!(topic_to_keyexpr("a/", ""), Err(TopicError::EmptyLevel));
    assert_eq!(topic_to_keyexpr("a/+/b", ""), Err(TopicError::WildcardInTopic('+')));
    assert_eq!(topic_to_keyexpr("a/#", ""), Err(TopicError::WildcardInTopic('#')));
    assert_eq!(filter_to_keyexpr("a/#/b", ""), Err(TopicError::HashNotLast));
    assert_eq!(
        filter_to_keyexpr("a/b+/c", ""),
        Err(TopicError::PartialWildcard("b+".into()))
    );
    assert_eq!(topic_to_keyexpr("a/b*c", ""), Err(TopicError::ReservedChar('*')));
    assert_eq!(topic_to_keyexpr("$SYS/x", ""), Err(TopicError::ReservedChar('$')));
    assert_eq!(filter_to_keyexpr("a/?", ""), Err(TopicError::ReservedChar('?')));
    assert_eq!(topic_to_keyexpr("a/@retained/b", ""), Err(TopicError::ReservedChar('@')));
    assert_eq!(filter_to_keyexpr("@retained/#", ""), Err(TopicError::ReservedChar('@')));
}

#[test]
fn matching() {
    assert!(topic_matches("plant/+/temp", "plant/kiln1/temp"));
    assert!(topic_matches("plant/#", "plant/kiln1/temp"));
    assert!(topic_matches("plant/#", "plant"));
    assert!(topic_matches("#", "a/b/c"));
    assert!(topic_matches("a/b", "a/b"));
    assert!(!topic_matches("plant/+/temp", "plant/kiln1/pressure"));
    assert!(!topic_matches("plant/+", "plant/kiln1/temp"));
    assert!(!topic_matches("a/b", "a"));
    assert!(!topic_matches("+", "a/b"));
}

#[test]
fn coverage() {
    assert!(filter_covers("#", "anything/goes"));
    assert!(filter_covers("plant/#", "plant/+/temp"));
    assert!(filter_covers("plant/#", "plant"));
    assert!(filter_covers("plant/+/temp", "plant/kiln1/temp"));
    assert!(filter_covers("a/b", "a/b"));
    assert!(!filter_covers("plant/+", "plant/#"));
    assert!(!filter_covers("plant/kiln1/#", "plant/#"));
    assert!(!filter_covers("a/b", "a/+"));
    assert!(!filter_covers("a/b", "a/b/c"));
}

#[test]
fn retained_keyspace() {
    assert_eq!(retained_keyexpr("a/b", "scope"), "scope/@retained/a/b");
    assert_eq!(retained_filter(""), "@retained/**");
    assert_eq!(retained_keyexpr_to_topic("scope/@retained/a/b", "scope"), Some("a/b"));
    assert_eq!(retained_keyexpr_to_topic("scope/a/b", "scope"), None);
    // Internal keyspaces never surface as client topics.
    assert_eq!(keyexpr_to_topic("scope/@retained/a/b", "scope"), None);
}

#[test]
fn sys_keyspace() {
    // Subscribable, with wildcards below the $SYS root.
    assert_eq!(filter_to_keyexpr("$SYS/#", "").unwrap(), "@sys/**");
    assert_eq!(filter_to_keyexpr("$SYS/broker/+/uptime", "s").unwrap(), "s/@sys/broker/*/uptime");
    // But never publishable or forgeable, and only at the first level.
    assert_eq!(topic_to_keyexpr("$SYS/broker/x", ""), Err(TopicError::ReservedChar('$')));
    assert_eq!(filter_to_keyexpr("a/$SYS/#", ""), Err(TopicError::ReservedChar('$')));
    // Samples map back to $SYS topics.
    assert_eq!(
        keyexpr_to_topic("s/@sys/broker/n1/uptime", "s").as_deref(),
        Some("$SYS/broker/n1/uptime")
    );
    assert_eq!(sys_keyexpr("broker/n1/uptime", "s"), "s/@sys/broker/n1/uptime");
    assert_eq!(keyexpr_to_topic("s/@sys", "s"), None);
}

#[test]
fn meta_keyspace() {
    assert_eq!(filter_to_keyexpr("$meta/#", "s").unwrap(), "s/@meta/**");
    assert_eq!(filter_to_keyexpr("$meta/clients/+/x", "").unwrap(), "@meta/clients/*/x");
    assert_eq!(topic_to_keyexpr("$meta/x", ""), Err(TopicError::ReservedChar('$')));
    assert_eq!(filter_to_keyexpr("a/$meta", ""), Err(TopicError::ReservedChar('$')));
    assert_eq!(meta_keyexpr("plant/kiln1/temp", "s"), "s/@meta/plant/kiln1/temp");
    assert_eq!(
        keyexpr_to_topic("s/@meta/plant/kiln1/temp", "s").as_deref(),
        Some("$meta/plant/kiln1/temp")
    );
    assert_eq!(keyexpr_to_topic("@metadata/x", ""), None);
}

#[test]
fn published_topics_come_back_from_their_keys() {
    for scope in ["", "s", "a/b"] {
        for topic in ["a", "plant/kiln1/temp", "gr\u{fc}n/x"] {
            let key = topic_to_keyexpr(topic, scope).unwrap();
            assert_eq!(keyexpr_to_topic(&key, scope).as_deref(), Some(topic));
            assert_eq!(retained_keyexpr_to_topic(&key, scope), None);
            let retained = retained_keyexpr(topic, scope);
            assert_eq!(retained_keyexpr_to_topic(&retained, scope), Some(topic));
            assert_eq!(keyexpr_to_topic(&retained, scope), None);
        }
    }
}
