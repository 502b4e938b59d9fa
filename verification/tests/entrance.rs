use entmoot::admission::ConnectAdmission;
use entmoot::auth::{sha256_hex, ConnectDenied};
use entmoot::broker::Broker;
use entmoot::churn::ChurnGuard;
use entmoot::config::{AclRule, AuthConfig, NodeConfig, Policy, QuotaRule, SchemaFailAction, SchemaRule, UserCred};
use entmoot::gate::{event_keyexpr, first_packet, judge_connect, pass_gate, ConnectOutcome, Entry, Gate, Refusal};
use entmoot::metrics::Metrics;
use entmoot::packet::{Connect, ConnectCode, Incoming, Login, QoS};
use entmoot::policy::Policies;
use entmoot::quota::IdentityConns;
use entmoot::session::{Delivery, Step};

fn gate(rate: u32, reconnects: u32) -> Gate {
    Gate {
        admission: ConnectAdmission::new(rate, rate),
        churn: ChurnGuard::new(reconnects, 60, 300),
        conns: IdentityConns::new(),
    }
}

fn config() -> NodeConfig {
    NodeConfig {
        auth: AuthConfig {
            allow_anonymous: false,
            users: vec![UserCred { name: "operator".into(), password_sha256: sha256_hex("pw") }],
            ..AuthConfig::default()
        },
        quota: vec![QuotaRule { user: "operator".into(), max_connections: 1 }],
        ..NodeConfig::default()
    }
}

fn connect(id: &str, login: Option<(&str, &str)>) -> Connect {
    Connect {
        keep_alive: 30,
        client_id: id.into(),
        clean_session: false,
        last_will: None,
        login: login.map(|(u, p)| Login { username: u.into(), password: p.into() }),
    }
}

fn entry(o: ConnectOutcome) -> Entry {
    match o {
        ConnectOutcome::Accepted(e) => e,
        ConnectOutcome::Refused(r, _) => panic!("{r:?}"),
    }
}

fn refused(o: ConnectOutcome) -> (Refusal, Option<(String, String)>) {
    match o {
        ConnectOutcome::Accepted(e) => panic!("{} was let in", e.client_id),
        ConnectOutcome::Refused(r, event) => (r, event.map(|e| (e.client_id, e.text))),
    }
}

#[test]
fn a_known_user_is_let_in_up_to_the_quota() {
    let policies = Policies::new(config()).unwrap();
    let mut g = gate(0, 0);
    let mut m = Metrics::default();
    let c = connect("plc1", Some(("operator", "pw")));
    let e = entry(pass_gate(&mut g, &policies, &mut m, &c, None, "10.0.0.1:5", 1));
    assert_eq!((e.client_id.as_str(), e.identity.as_str(), e.clean), ("plc1", "operator", false));
    assert_eq!(m.connections_total, 1);
    let (r, event) = refused(pass_gate(&mut g, &policies, &mut m, &c, None, "10.0.0.1:5", 1));
    assert_eq!(r, Refusal::OverQuota);
    assert!(event.is_none());
    assert_eq!(r.code(), ConnectCode::ServiceUnavailable);
    assert_eq!((m.quota_refused_total, m.connections_total), (1, 1));
    g.conns.release("operator");
    entry(pass_gate(&mut g, &policies, &mut m, &c, None, "10.0.0.1:5", 1));
}

#[test]
fn failed_authentication_is_an_event() {
    let policies = Policies::new(config()).unwrap();
    let mut g = gate(0, 0);
    let mut m = Metrics::default();
    let bad = connect("plc1", Some(("operator", "wrong")));
    let (r, event) = refused(pass_gate(&mut g, &policies, &mut m, &bad, None, "10.0.0.1:5", 1));
    assert_eq!(r, Refusal::Denied(ConnectDenied::BadCredentials));
    assert_eq!(r.code(), ConnectCode::BadUserNamePassword);
    assert_eq!(
        event,
        Some(("plc1".into(), "auth_fail addr=10.0.0.1:5 user=operator reason=BadCredentials".into()))
    );
    let anon = connect("", None);
    let (r, event) = refused(pass_gate(&mut g, &policies, &mut m, &anon, None, "10.0.0.1:6", 1));
    assert_eq!(r, Refusal::Denied(ConnectDenied::AnonymousNotAllowed));
    assert_eq!(r.code(), ConnectCode::NotAuthorized);
    assert_eq!(
        event,
        Some(("<unknown>".into(), "auth_fail addr=10.0.0.1:6 user=<anonymous> reason=AnonymousNotAllowed".into()))
    );
    assert_eq!(m.connect_refused_total, 2);
    assert_eq!(event_keyexpr("n1", "plc1", "s"), "s/@meta/clients/n1/plc1");
}

#[test]
fn a_certificate_overrides_the_login() {
    let policies = Policies::new(config()).unwrap();
    let mut g = gate(0, 0);
    let mut m = Metrics::default();
    let c = connect("plc1", Some(("operator", "wrong")));
    let e = entry(pass_gate(&mut g, &policies, &mut m, &c, Some("kiln-7".into()), "p", 1));
    assert_eq!(e.identity, "kiln-7");
}

#[test]
fn a_client_without_a_name_gets_one_and_is_clean() {
    let policies = Policies::new(NodeConfig::default()).unwrap();
    let mut g = gate(0, 0);
    let mut m = Metrics::default();
    let e = entry(pass_gate(&mut g, &policies, &mut m, &connect("", None), None, "p", 1234567890123456789012));
    assert_eq!((e.client_id.as_str(), e.identity.as_str(), e.clean), ("entmoot-anon-1234567890123456789012", "", true));
}

#[test]
fn a_storm_is_shed_before_anything_else() {
    let policies = Policies::new(config()).unwrap();
    let mut g = gate(1, 1);
    let mut m = Metrics::default();
    let bad = connect("plc1", Some(("operator", "wrong")));
    assert!(matches!(refused(pass_gate(&mut g, &policies, &mut m, &bad, None, "p", 1)).0, Refusal::Denied(_)));
    let (r, event) = refused(pass_gate(&mut g, &policies, &mut m, &bad, None, "p", 1));
    assert_eq!(r, Refusal::Shed);
    assert!(event.is_none());
    assert_eq!((m.connect_shed_total, m.connect_refused_total), (1, 1));
}

#[test]
fn flapping_clients_are_quarantined() {
    let policies = Policies::new(NodeConfig::default()).unwrap();
    let mut g = gate(0, 2);
    let mut m = Metrics::default();
    let c = connect("plc1", None);
    let identity = || Ok(String::new());
    for now in [0, 1] {
        entry(judge_connect(&mut g, &policies, &mut m, &c, true, identity(), now, "p", 1));
    }
    let (r, _) = refused(judge_connect(&mut g, &policies, &mut m, &c, true, identity(), 2, "p", 1));
    assert_eq!(r, Refusal::Quarantined);
    assert_eq!(r.code(), ConnectCode::ServiceUnavailable);
    assert_eq!(m.churn_quarantined_total, 1);
    entry(judge_connect(&mut g, &policies, &mut m, &connect("plc2", None), true, identity(), 3, "p", 1));
    let after = 2 + 300_000_000_000;
    refused(judge_connect(&mut g, &policies, &mut m, &c, true, identity(), after - 1, "p", 1));
    entry(judge_connect(&mut g, &policies, &mut m, &c, true, identity(), after + 1, "p", 1));
}

#[test]
fn a_broker_welcomes_and_takes_leave() {
    let mut b = Broker::new(NodeConfig::default()).unwrap();
    let who = Entry { client_id: "plc1".into(), identity: "op".into(), clean: false };
    assert!(b.gate.conns.try_admit("op", Some(1)));
    let (client, out) = b.welcome(&who, 30, None, 7, None);
    assert!(!out.session_present);
    assert_eq!((client.id.as_str(), client.keep_alive), ("plc1", 30));
    assert!(b.conns.try_open());
    assert_eq!(b.connections(), 1);
    assert_eq!(b.registry.deliver(client.session, "t", b"1", QoS::AtMostOnce), Step::Send(7, 0));
    let gone = b.farewell(&client, out.epoch, false, 0);
    assert!(gone.detached);
    assert!(b.gate.conns.try_admit("op", Some(1)), "the slot is free again");
    assert_eq!(b.registry.deliver(client.session, "t", b"1", QoS::AtLeastOnce), Step::Done(Delivery::Queued));
    b.retained.insert("t".into(), vec![]);
    let g = b.gauges();
    assert_eq!((g.connections, g.sessions, g.sessions_offline, g.queue_depth, g.queue_dropped), (1, 1, 1, 1, 0));
    assert_eq!((g.retained_messages, g.retained_scans), (1, 0));
}

#[test]
fn an_evicted_consumer_is_counted_once() {
    let mut b = Broker::new(NodeConfig::default()).unwrap();
    let who = Entry { client_id: "plc1".into(), identity: "op".into(), clean: false };
    let (client, _) = b.welcome(&who, 30, None, 7, None);
    assert_eq!(b.send_failed(client.session, 8, true, 1), (false, None), "another connection");
    assert_eq!(b.send_failed(client.session, 7, true, 1), (true, Some(7)));
    assert_eq!(b.send_failed(client.session, 7, true, 2), (false, None));
    assert_eq!(b.metrics.slow_consumer_evictions_total, 1);
    let (client, _) = b.welcome(&who, 30, None, 9, None);
    assert_eq!(b.send_failed(client.session, 9, false, 3), (false, None), "a closed connection is not evicted");
    assert_eq!(b.metrics.slow_consumer_evictions_total, 1);
}

#[test]
fn a_reload_takes_effect_at_once_or_not_at_all() {
    let mut b = Broker::new(NodeConfig::default()).unwrap();
    assert!(b.policies.acl.may_publish("", "a"));
    let deny = NodeConfig {
        auth: AuthConfig { default_policy: Policy::Deny, ..AuthConfig::default() },
        acl: vec![AclRule { user: "*".into(), publish: vec!["ok/#".into()], subscribe: vec![] }],
        ..NodeConfig::default()
    };
    assert!(b.reload(deny.clone()).is_ok());
    assert!(!b.policies.acl.may_publish("", "a"));
    assert!(b.policies.acl.may_publish("", "ok/a"));
    let broken = NodeConfig {
        schema: vec![SchemaRule { filter: "a".into(), schema: "{".into(), on_fail: SchemaFailAction::Drop }],
        ..NodeConfig::default()
    };
    assert!(b.reload(broken.clone()).unwrap_err().starts_with("schema for filter \"a\" is not valid JSON: "));
    assert!(!b.policies.acl.may_publish("", "a"), "the earlier rules stay");
    assert!(Broker::new(broken).is_err());
}

#[test]
fn kept_sessions_come_back_after_a_restart() {
    let mut b = Broker::new(NodeConfig {
        data_dir: Some("d".into()),
        auth: AuthConfig { default_policy: Policy::Deny, ..AuthConfig::default() },
        acl: vec![AclRule { user: "op".into(), publish: vec![], subscribe: vec!["plant/#".into()] }],
        ..NodeConfig::default()
    })
    .unwrap();
    let kept = entmoot::durable::SubsFile {
        client_id: "plc1".into(),
        identity: "op".into(),
        subs: vec![("plant/#".into(), QoS::AtLeastOnce), ("secret".into(), QoS::AtLeastOnce)],
    };
    let (session, subs) = b.rehydrate(&kept, None, 0);
    assert_eq!(subs, [("plant/#".to_string(), QoS::AtLeastOnce)]);
    assert_eq!(b.registry.deliver(session, "plant/a", b"1", QoS::AtLeastOnce), Step::Done(Delivery::Queued));
    let who = Entry { client_id: "plc1".into(), identity: "op".into(), clean: false };
    let (_, out) = b.welcome(&who, 0, None, 1, None);
    assert!(out.session_present);
    assert_eq!(out.backlog.len(), 1);
}

#[test]
fn a_connection_begins_with_a_connect() {
    assert_eq!(first_packet(Incoming::Connect(connect("plc1", None))).unwrap().client_id, "plc1");
    assert!(matches!(first_packet(Incoming::PingReq), Err(Incoming::PingReq)));
    assert!(matches!(first_packet(Incoming::PubRel(7)), Err(Incoming::PubRel(7))));
}
