use entmoot::config::QuotaRule;
use entmoot::quota::{IdentityConns, QuotaPolicy};

#[test]
fn no_rules_means_unlimited() {
    let p = QuotaPolicy::new(vec![]);
    assert_eq!(p.max_connections_for("plc1"), None);
}

#[test]
fn exact_identity_rule_wins_over_wildcard() {
    let p = QuotaPolicy::new(vec![
        QuotaRule { user: "*".into(), max_connections: 5 },
        QuotaRule { user: "plc1".into(), max_connections: 50 },
    ]);
    assert_eq!(p.max_connections_for("plc1"), Some(50));
    assert_eq!(p.max_connections_for("plc2"), Some(5));
}

#[test]
fn zero_means_unlimited_for_that_identity_even_under_a_wildcard() {
    let p = QuotaPolicy::new(vec![
        QuotaRule { user: "*".into(), max_connections: 5 },
        QuotaRule { user: "plc1".into(), max_connections: 0 },
    ]);
    assert_eq!(p.max_connections_for("plc1"), None);
    assert_eq!(p.max_connections_for("plc2"), Some(5));
}

#[test]
fn the_first_of_two_rules_for_an_identity_counts() {
    let p = QuotaPolicy::new(vec![
        QuotaRule { user: "plc1".into(), max_connections: 3 },
        QuotaRule { user: "plc1".into(), max_connections: 9 },
    ]);
    assert_eq!(p.max_connections_for("plc1"), Some(3));
    assert_eq!(p.max_connections_for("plc2"), None);
}

#[test]
fn admits_up_to_the_limit_then_refuses() {
    let mut c = IdentityConns::default();
    assert!(c.try_admit("plc1", Some(2)));
    assert!(c.try_admit("plc1", Some(2)));
    assert!(!c.try_admit("plc1", Some(2)));
}

#[test]
fn release_frees_a_slot() {
    let mut c = IdentityConns::default();
    assert!(c.try_admit("plc1", Some(1)));
    assert!(!c.try_admit("plc1", Some(1)));
    c.release("plc1");
    assert!(c.try_admit("plc1", Some(1)));
}

#[test]
fn identities_are_independent() {
    let mut c = IdentityConns::default();
    assert!(c.try_admit("plc1", Some(1)));
    assert!(c.try_admit("plc2", Some(1)));
}

#[test]
fn none_limit_is_unlimited() {
    let mut c = IdentityConns::default();
    for _ in 0..1000 {
        assert!(c.try_admit("plc1", None));
    }
}

#[test]
fn a_release_without_a_connection_changes_nothing() {
    let mut c = IdentityConns::new();
    c.release("plc1");
    assert!(c.try_admit("plc1", Some(1)));
    assert!(!c.try_admit("plc1", Some(1)));
}

#[test]
fn a_cap_of_zero_admits_nobody() {
    let mut c = IdentityConns::new();
    assert!(!c.try_admit("plc1", Some(0)));
}
