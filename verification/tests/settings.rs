use entmoot::config::{
    apply_overrides, default_jwt_identity_claim, default_tls_listen, AclRule, AuthConfig, NodeConfig, Overrides, Policy,
    SchemaFailAction,
};
use entmoot::node::{peer_cn, startup, to_json_array, zenoh_settings, ConnectionCount};
use entmoot::topic::TopicError;

fn none() -> Overrides {
    Overrides {
        id: None,
        mqtt: None,
        zenoh_listen: vec![],
        peers: vec![],
        peer_zero: None,
        scope: None,
        max_packet_size: None,
        connect_admission_rate: None,
        connect_admission_burst: None,
        retained_staleness_secs: None,
        zenoh_link_mtu: None,
        churn_max_reconnects: None,
        churn_window_secs: None,
        churn_cooldown_secs: None,
    }
}

#[test]
fn defaults_are_open_and_modest() {
    let c = NodeConfig::default();
    assert_eq!(c.id, "entmoot-0");
    assert_eq!(c.mqtt_listen, "0.0.0.0:1883");
    assert_eq!(c.zenoh_listen, ["tcp/0.0.0.0:7447"]);
    assert_eq!((c.max_packet_size, c.max_connections, c.max_queued_per_session), (262_144, 10_000, 1000));
    assert_eq!((c.session_expiry_secs, c.slow_consumer_grace_ms, c.sys_interval_secs), (86_400, 5000, 10));
    assert_eq!((c.churn_max_reconnects, c.churn_window_secs, c.churn_cooldown_secs), (0, 60, 300));
    assert!(c.auth.allow_anonymous && c.auth.default_policy == Policy::Allow);
    assert_eq!(AclRule::default().user, "*");
    assert_eq!(SchemaFailAction::default(), SchemaFailAction::Drop);
    assert_eq!(default_tls_listen(), "0.0.0.0:8883");
    assert_eq!(default_jwt_identity_claim(), "sub");
}

#[test]
fn the_command_line_takes_precedence() {
    let file = NodeConfig { peers: vec!["tcp/a:1".into()], max_publish_rate: 9, ..NodeConfig::default() };
    let same = apply_overrides(file.clone(), none());
    assert_eq!((same.id.as_str(), same.peers.len(), same.max_publish_rate), ("entmoot-0", 1, 9));
    let c = apply_overrides(
        file,
        Overrides {
            id: Some("entmoot-1".into()),
            peers: vec!["tcp/b:1".into(), "tcp/c:1".into()],
            peer_zero: Some("tcp/entmoot-0.entmoot-headless:7447".into()),
            scope: Some("s".into()),
            max_packet_size: Some(1),
            connect_admission_rate: Some(2),
            connect_admission_burst: Some(3),
            retained_staleness_secs: Some(4),
            zenoh_link_mtu: Some(5),
            churn_max_reconnects: Some(6),
            churn_window_secs: Some(7),
            churn_cooldown_secs: Some(8),
            mqtt: Some("m".into()),
            zenoh_listen: vec!["z".into()],
        },
    );
    assert_eq!(c.peers, ["tcp/b:1", "tcp/c:1", "tcp/entmoot-0.entmoot-headless:7447"]);
    assert_eq!((c.id.as_str(), c.scope.as_str(), c.mqtt_listen.as_str()), ("entmoot-1", "s", "m"));
    assert_eq!(c.zenoh_listen, ["z"]);
    assert_eq!((c.max_packet_size, c.connect_admission_rate, c.connect_admission_burst), (1, 2, 3));
    assert_eq!((c.retained_staleness_secs, c.zenoh_link_mtu, c.churn_max_reconnects), (4, Some(5), 6));
    assert_eq!((c.churn_window_secs, c.churn_cooldown_secs), (7, 8));
}

#[test]
fn the_seed_node_is_no_peer_of_itself() {
    let o = Overrides { peer_zero: Some("tcp/entmoot-0.entmoot-headless:7447".into()), ..none() };
    assert!(apply_overrides(NodeConfig::default(), o).peers.is_empty());
}

#[test]
fn bus_settings_are_explicit() {
    assert_eq!(to_json_array(&vec![]), "[]");
    assert_eq!(to_json_array(&vec!["a".into(), "b\"c".into()]), "[\"a\",\"b\\\"c\"]");
    let mut cfg = NodeConfig { peers: vec!["tcp/a:1".into()], ..NodeConfig::default() };
    let set = zenoh_settings(&cfg);
    assert_eq!(
        set,
        [
            ("mode", "\"peer\"".to_string()),
            ("scouting/multicast/enabled", "false".to_string()),
            ("listen/endpoints", "[\"tcp/0.0.0.0:7447\"]".to_string()),
            ("connect/endpoints", "[\"tcp/a:1\"]".to_string()),
        ]
    );
    cfg.zenoh_link_mtu = Some(1400);
    assert_eq!(zenoh_settings(&cfg).len(), 5);
    assert_eq!(zenoh_settings(&cfg)[4].1, "1400");
}

#[test]
fn zero_switches_off() {
    let cfg = NodeConfig {
        slow_consumer_grace_ms: 0,
        sys_interval_secs: 0,
        session_expiry_secs: 0,
        data_dir: Some("d".into()),
        auth: AuthConfig { allow_anonymous: false, ..AuthConfig::default() },
        ..NodeConfig::default()
    };
    let s = startup(&cfg);
    assert_eq!((s.slow_grace_ms, s.sys_interval_secs, s.session_expiry_secs), (None, None, None));
    assert!(s.durable && !s.open_to_all);
    let s = startup(&NodeConfig::default());
    assert_eq!((s.slow_grace_ms, s.sys_interval_secs, s.session_expiry_secs), (Some(5000), Some(10), Some(86_400)));
    assert!(!s.durable && s.open_to_all);
}

#[test]
fn connections_are_limited() {
    let mut c = ConnectionCount::new(2);
    assert!(c.try_open() && c.try_open() && !c.try_open());
    assert_eq!(c.connections(), 2);
    c.close();
    assert_eq!(c.connections(), 1);
    assert!(c.try_open());
    c.close();
    c.close();
    c.close();
    assert_eq!(c.connections(), 0);
}

#[test]
fn certificates_give_their_common_name() {
    assert_eq!(peer_cn(&vec![]), None);
    assert_eq!(peer_cn(&vec![b"no certificate".to_vec()]), None);
    assert_eq!(peer_cn(&vec![certificate(b"kiln-7")]), Some("kiln-7".to_string()));
}

/// A DER value: tag, length, contents.
fn der(tag: u8, contents: &[u8]) -> Vec<u8> {
    let mut out = vec![tag];
    if contents.len() < 128 {
        out.push(contents.len() as u8);
    } else {
        out.extend([0x82, (contents.len() >> 8) as u8, contents.len() as u8]);
    }
    out.extend(contents);
    out
}

/// A certificate whose subject has the given common name.
fn certificate(cn: &[u8]) -> Vec<u8> {
    let seq = |parts: &[Vec<u8>]| der(0x30, &parts.concat());
    let attribute = seq(&[der(0x06, &[0x55, 0x04, 0x03]), der(0x0c, cn)]);
    let name = seq(&[der(0x31, &attribute)]);
    let algorithm = seq(&[der(0x06, &[0x2a, 0x86, 0x48, 0xce, 0x3d, 0x04, 0x03, 0x02])]);
    let validity = seq(&[der(0x17, b"240101000000Z"), der(0x17, b"340101000000Z")]);
    let key = seq(&[
        seq(&[
            der(0x06, &[0x2a, 0x86, 0x48, 0xce, 0x3d, 0x02, 0x01]),
            der(0x06, &[0x2a, 0x86, 0x48, 0xce, 0x3d, 0x03, 0x01, 0x07]),
        ]),
        der(0x03, &[0, 4, 1, 2, 3]),
    ]);
    let body = seq(&[
        der(0xa0, &der(0x02, &[2])),
        der(0x02, &[1]),
        algorithm.clone(),
        name.clone(),
        validity,
        name,
        key,
    ]);
    seq(&[body, algorithm, der(0x03, &[0, 1, 2, 3])])
}

#[test]
fn topic_faults_in_words() {
    assert_eq!(TopicError::Empty.message(), "topic is empty");
    assert_eq!(
        TopicError::EmptyLevel.message(),
        "topic has an empty level (leading/trailing or doubled '/')"
    );
    assert_eq!(TopicError::WildcardInTopic('+').message(), "wildcard '+' is not allowed in a publish topic");
    assert_eq!(TopicError::HashNotLast.message(), "'#' must be the final level of a filter");
    assert_eq!(
        TopicError::PartialWildcard("a+".into()).message(),
        "wildcard must occupy a whole level (got \"a+\")"
    );
    assert_eq!(
        TopicError::ReservedChar('?').message(),
        "character '?' is reserved zenoh syntax and not allowed"
    );
}
