use entmoot::ctl;
use entmoot::topic::{
    filter_to_keyexpr, keyexpr_to_topic, meta_keyexpr, retained_keyexpr, sys_keyexpr, topic_matches, topic_to_keyexpr,
};
use zenoh::key_expr::keyexpr;

const FILTERS: [&str; 12] =
    ["#", "+", "+/+", "+/#", "plant/#", "plant/+", "plant/+/temp", "plant/kiln1/temp", "plant", "a/b/c", "a/+/c/#", "a"];

const TOPICS: [&str; 8] = ["plant", "plant/kiln1", "plant/kiln1/temp", "plant/kiln1/temp/x", "a", "a/b/c", "a/x/c/d/e", "b"];

/// What the bus itself says of a pattern and a key.
fn on_the_bus(pattern: &str, key: &str) -> bool {
    keyexpr::new(pattern).unwrap().intersects(keyexpr::new(key).unwrap())
}

#[test]
fn the_bus_delivers_what_the_filter_asks_for() {
    for scope in ["", "plant-a", "x/y"] {
        for filter in FILTERS {
            for topic in TOPICS {
                let pattern = filter_to_keyexpr(filter, scope).unwrap();
                let key = topic_to_keyexpr(topic, scope).unwrap();
                assert_eq!(on_the_bus(&pattern, &key), topic_matches(filter, topic), "{filter} on {topic} in {scope:?}");
                assert_eq!(keyexpr_to_topic(&key, scope).unwrap(), topic);
            }
        }
    }
}

#[test]
fn wildcards_see_no_internal_keyspace() {
    for scope in ["", "plant-a"] {
        let keys = [
            retained_keyexpr("plant/kiln1", scope),
            sys_keyexpr("broker/n1/version", scope),
            meta_keyexpr("clients/n1/plc1", scope),
            ctl::keyexpr(scope),
        ];
        for filter in FILTERS {
            let pattern = filter_to_keyexpr(filter, scope).unwrap();
            for key in &keys {
                assert!(!on_the_bus(&pattern, key), "{filter} sees {key}");
            }
        }
        for filter in ["$SYS/#", "$meta/#"] {
            let pattern = filter_to_keyexpr(filter, scope).unwrap();
            assert!(!on_the_bus(&pattern, &keys[0]) && !on_the_bus(&pattern, &keys[3]));
        }
    }
}

#[test]
fn stats_reach_those_who_name_them() {
    for scope in ["", "plant-a"] {
        let key = sys_keyexpr("broker/n1/version", scope);
        for (filter, seen) in [
            ("$SYS/#", true),
            ("$SYS/broker/+/version", true),
            ("$SYS/broker/n1/version", true),
            ("$SYS/broker/n2/#", false),
            ("$SYS/+", false),
            ("$meta/#", false),
        ] {
            let pattern = filter_to_keyexpr(filter, scope).unwrap();
            assert_eq!(on_the_bus(&pattern, &key), seen, "{filter}");
            assert_eq!(topic_matches(filter, "$SYS/broker/n1/version"), seen);
        }
        assert_eq!(keyexpr_to_topic(&key, scope).unwrap(), "$SYS/broker/n1/version");
    }
}
