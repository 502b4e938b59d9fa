use entmoot::config::is_peer_zero_self;
use entmoot::ctl::{answer, keyexpr, outcome, report, selector, DisconnectOutcome};
use entmoot::registry::SessionRegistry;
use entmoot::session::KICK_REQUESTED;

#[test]
fn keyexpr_scoping() {
    assert_eq!(keyexpr(""), "@ctl/disconnect");
    assert_eq!(keyexpr("plant-a"), "plant-a/@ctl/disconnect");
}

#[test]
fn peer_zero_self_detection() {
    assert!(is_peer_zero_self("tcp/entmoot-0.entmoot-headless:7447", "entmoot-0"));
    assert!(is_peer_zero_self(
        "entmoot-0.entmoot-headless.default.svc.cluster.local:7447",
        "entmoot-0"
    ));
    assert!(!is_peer_zero_self("tcp/entmoot-0.entmoot-headless:7447", "entmoot-1"));
    // No accidental prefix match between "entmoot-0" and "entmoot-10".
    assert!(!is_peer_zero_self("tcp/entmoot-0.entmoot-headless:7447", "entmoot-10"));
}

#[test]
fn the_query_carries_the_client() {
    assert_eq!(selector("plant-a", "plc1"), "plant-a/@ctl/disconnect?client=plc1");
}

#[test]
fn only_the_node_that_holds_the_client_answers() {
    let mut registry = SessionRegistry::new(10, false);
    let out = registry.attach("plc1", "", true, 7, None);
    assert_eq!(answer(&mut registry, None, "n1"), None);
    assert_eq!(answer(&mut registry, Some("plc2"), "n1"), None);
    assert_eq!(answer(&mut registry, Some("plc1"), "n1"), Some((7, "kicked node=n1".to_string())));
    assert_eq!(registry.take_kick_reason(out.session), Some(KICK_REQUESTED));
    registry.detach(out.session, out.epoch, true, 0);
    assert_eq!(answer(&mut registry, Some("plc1"), "n1"), None);
}

#[test]
fn an_offline_session_is_not_a_live_connection() {
    let mut registry = SessionRegistry::new(10, false);
    let out = registry.attach("plc1", "", false, 7, None);
    registry.detach(out.session, out.epoch, false, 0);
    assert_eq!(answer(&mut registry, Some("plc1"), "n1"), None);
}

#[test]
fn replies_name_the_node() {
    assert_eq!(outcome(Some(b"kicked node=cc-a")), DisconnectOutcome::Kicked { node: "cc-a".into() });
    assert_eq!(outcome(Some(b"cc-a")), DisconnectOutcome::Kicked { node: "cc-a".into() });
    assert_eq!(outcome(Some(b"kicked node=\xff")), DisconnectOutcome::Kicked { node: "\u{fffd}".into() });
    assert_eq!(outcome(None), DisconnectOutcome::NotFound);
}

#[test]
fn outcomes_in_words() {
    assert_eq!(
        report("plc\"1", &DisconnectOutcome::Kicked { node: "cc-a".into() }),
        "kicked: client \"plc\\\"1\" was connected to node \"cc-a\""
    );
    assert_eq!(
        report("plc1", &DisconnectOutcome::NotFound),
        "not found: no node in the mesh currently holds client \"plc1\""
    );
}
