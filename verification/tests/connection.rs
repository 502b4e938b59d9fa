use entmoot::config::{AclRule, AuthConfig, NodeConfig, Policy, SchemaFailAction, SchemaRule, StalenessRule};
use entmoot::connection::{
    count_delivery, count_retained, end_text, idle_limit_millis, kick_text, relayed, stale_notice, to_client, Client,
    NodeInfo, PublishOutcome, Reaction, RetainedWrite, StreamEnd, SubscribeDecision, WillOutcome,
};
use entmoot::metrics::Metrics;
use entmoot::packet::{Connect, Incoming, LastWill, Outgoing, Publish, QoS, SubscribeCode};
use entmoot::policy::Policies;
use entmoot::registry::SessionRegistry;
use entmoot::retained::{encode_envelope, RetainedStore};
use entmoot::schema::Verdict;
use entmoot::session::{Delivery, Sub, KICK_SLOW, KICK_TAKEOVER};

fn client() -> Client {
    Client {
        session: 0,
        id: "plc1".into(),
        identity: "op".into(),
        keep_alive: 30,
        will: Some(LastWill { topic: "w/gone".into(), message: b"bye".to_vec(), qos: QoS::AtMostOnce, retain: true }),
        inflight: vec![],
    }
}

fn node() -> NodeInfo {
    NodeInfo { id: "n1".into(), scope: "s".into(), max_publish_rate: 20 }
}

fn policies() -> Policies {
    Policies::new(NodeConfig {
        auth: AuthConfig { default_policy: Policy::Deny, ..AuthConfig::default() },
        acl: vec![AclRule {
            user: "op".into(),
            publish: vec!["plant/#".into(), "w/#".into()],
            subscribe: vec!["plant/#".into()],
        }],
        schema: vec![
            SchemaRule { filter: "plant/x/#".into(), schema: "false".into(), on_fail: SchemaFailAction::Disconnect },
            SchemaRule {
                filter: "plant/n/#".into(),
                schema: "{\"type\":\"number\"}".into(),
                on_fail: SchemaFailAction::Drop,
            },
        ],
        staleness: vec![StalenessRule { filter: "plant/slow/#".into(), bound_secs: 0 }],
        retained_staleness_secs: 60,
        ..NodeConfig::default()
    })
    .unwrap()
}

fn publish(topic: &str, payload: &[u8], qos: QoS, retain: bool) -> Publish {
    Publish { dup: false, qos, retain, topic: topic.into(), pkid: 7, payload: payload.to_vec() }
}

fn failed(o: PublishOutcome) -> String {
    match o {
        PublishOutcome::Fail(e) => e,
        PublishOutcome::Accept(..) => panic!("the connection should have ended"),
    }
}

#[test]
fn keep_alive_is_granted_one_and_a_half_times() {
    assert_eq!(idle_limit_millis(0), None);
    assert_eq!(idle_limit_millis(30), Some(45_000));
    assert_eq!(idle_limit_millis(u16::MAX), Some(98_302_500));
    assert_eq!(end_text(30, StreamEnd::Silent).unwrap(), "keep-alive expired (30s)");
}

#[test]
fn each_packet_has_its_answer() {
    let mut c = client();
    assert!(matches!(c.react(Incoming::PingReq), Reaction::Send(Outgoing::PingResp)));
    assert!(matches!(c.react(Incoming::Ack), Reaction::Nothing));
    assert!(matches!(c.react(Incoming::Subscribe(1, vec![])), Reaction::Subscribe(1, _)));
    assert!(matches!(c.react(Incoming::Unsubscribe(2, vec![])), Reaction::Unsubscribe(2, _)));
    assert!(matches!(c.react(Incoming::Publish(publish("a", b"", QoS::AtMostOnce, false))), Reaction::Publish(_)));
    assert!(matches!(c.react(Incoming::Unexpected("PingResp".into())), Reaction::Fail(e) if e == "unexpected packet PingResp"));
    let connect = Connect { keep_alive: 0, client_id: "x".into(), clean_session: true, last_will: None, login: None };
    assert!(matches!(c.react(Incoming::Connect(connect)), Reaction::Fail(e) if e == "duplicate CONNECT"));
    assert!(c.will.is_some());
    assert!(matches!(c.react(Incoming::Disconnect), Reaction::End));
    assert!(c.will.is_none(), "a clean disconnect discards the will");
    assert!(matches!(c.fire_will(&policies(), "s", 0), WillOutcome::Nothing));
}

#[test]
fn a_peer_that_closes_between_packets_has_ended_as_agreed() {
    let c = client();
    assert!(matches!(c.stream_ended(StreamEnd::closed(0)), Reaction::End));
    assert!(matches!(c.stream_ended(StreamEnd::PeerClosed), Reaction::End));
    let fault = |end: StreamEnd| match c.stream_ended(end) {
        Reaction::Fail(reason) => reason,
        _ => panic!("a fault"),
    };
    assert_eq!(fault(StreamEnd::closed(3)), "connection closed by peer");
    assert_eq!(fault(StreamEnd::CutOff), "connection closed by peer");
    assert_eq!(fault(StreamEnd::Malformed("bad".into())), "malformed MQTT packet: bad");
    assert_eq!(fault(StreamEnd::Broken("reset".into())), "socket read: reset");
    assert_eq!(fault(StreamEnd::Silent), "keep-alive expired (30s)");
    assert_eq!(fault(StreamEnd::Kicked(Some(KICK_SLOW))), KICK_SLOW);
    assert_eq!(fault(StreamEnd::Kicked(None)), KICK_TAKEOVER);
    assert_eq!(end_text(0, StreamEnd::PeerClosed), None);
}

#[test]
fn the_will_fires_unless_the_end_was_as_agreed() {
    let mut c = client();
    assert!(matches!(c.settle_will(&policies(), "s", true, 9), WillOutcome::Nothing));
    assert!(c.will.is_none());
    let mut c = client();
    assert!(matches!(c.settle_will(&policies(), "s", false, 9), WillOutcome::Fire(r) if r.key == "s/w/gone"));
    assert!(c.will.is_none());
}

#[test]
fn a_message_counts_once_it_is_on_the_bus() {
    let mut m = Metrics::default();
    let kept = relayed(&mut m, "s/plant/a", RetainedWrite::Clear("s/@retained/plant/a".into()), Ok(()));
    assert!(matches!(kept, Ok(RetainedWrite::Clear(k)) if k == "s/@retained/plant/a"));
    assert_eq!(m.messages_in_total, 1);
    let failed = relayed(&mut m, "s/plant/a", RetainedWrite::Leave, Err("no route".into()));
    assert!(matches!(failed, Err(e) if e == "zenoh put on s/plant/a: no route"));
    assert_eq!(m.messages_in_total, 1);
}

#[test]
fn exactly_once_publishes_are_tracked_until_released() {
    let mut c = client();
    let mut m = Metrics::default();
    for _ in 0..2 {
        match c.publish(&policies(), &mut m, &node(), publish("plant/a", b"1", QoS::ExactlyOnce, false), true, 0) {
            PublishOutcome::Accept(None, Some(_), Some(Outgoing::PubRec(7))) => {}
            _ => panic!("a PUBREC is due"),
        }
    }
    assert_eq!(c.inflight, [7]);
    assert!(matches!(c.react(Incoming::PubRel(7)), Reaction::Send(Outgoing::PubComp(7))));
    assert!(c.inflight.is_empty());
}

#[test]
fn an_allowed_publish_goes_on_the_bus() {
    let mut c = client();
    let mut m = Metrics::default();
    match c.publish(&policies(), &mut m, &node(), publish("plant/a", b"1", QoS::AtLeastOnce, true), true, 5) {
        PublishOutcome::Accept(None, Some(relay), Some(Outgoing::PubAck(7))) => {
            assert_eq!((relay.key.as_str(), relay.payload.as_slice()), ("s/plant/a", &b"1"[..]));
            match relay.retained {
                RetainedWrite::Store(key, value) => {
                    assert_eq!(key, "s/@retained/plant/a");
                    assert_eq!(value, encode_envelope(b"1", 5));
                }
                _ => panic!("to be retained"),
            }
        }
        _ => panic!("to be relayed"),
    }
    match c.publish(&policies(), &mut m, &node(), publish("plant/a", b"", QoS::AtMostOnce, true), true, 5) {
        PublishOutcome::Accept(None, Some(relay), None) => {
            assert!(matches!(relay.retained, RetainedWrite::Clear(k) if k == "s/@retained/plant/a"));
        }
        _ => panic!("to be relayed"),
    }
    match c.publish(&policies(), &mut m, &node(), publish("plant/a", b"1", QoS::AtMostOnce, false), true, 5) {
        PublishOutcome::Accept(None, Some(relay), None) => assert!(matches!(relay.retained, RetainedWrite::Leave)),
        _ => panic!("to be relayed"),
    }
}

#[test]
fn a_denied_publish_is_acknowledged_and_dropped() {
    let mut c = client();
    let mut m = Metrics::default();
    match c.publish(&policies(), &mut m, &node(), publish("other/\"a", b"1", QoS::AtLeastOnce, true), true, 5) {
        PublishOutcome::Accept(Some(event), None, Some(Outgoing::PubAck(7))) => {
            assert_eq!((event.client_id.as_str(), event.text.as_str()), ("plc1", "publish_denied topic=\"other/\\\"a\""));
        }
        _ => panic!("to be dropped"),
    }
    assert_eq!(m.publish_denied_total, 1);
}

#[test]
fn invalid_data_is_dropped_or_ends_the_connection() {
    let mut c = client();
    let mut m = Metrics::default();
    match c.publish(&policies(), &mut m, &node(), publish("plant/n/a", b"\"x\"", QoS::AtLeastOnce, false), true, 5) {
        PublishOutcome::Accept(None, None, Some(Outgoing::PubAck(7))) => {}
        _ => panic!("to be dropped"),
    }
    match c.publish(&policies(), &mut m, &node(), publish("plant/n/a", b"1.5", QoS::AtMostOnce, false), true, 5) {
        PublishOutcome::Accept(None, Some(_), None) => {}
        _ => panic!("to be relayed"),
    }
    let p = publish("plant/x/a", b"1", QoS::AtMostOnce, false);
    assert_eq!(
        failed(c.publish(&policies(), &mut m, &node(), p, true, 5)),
        "publish on \"plant/x/a\" failed schema validation, disconnecting"
    );
    assert_eq!(m.schema_denied_total, 2);
}

#[test]
fn rate_and_topic_faults_end_the_connection() {
    let mut c = client();
    let mut m = Metrics::default();
    let p = publish("plant/a", b"1", QoS::AtMostOnce, false);
    assert_eq!(
        failed(c.publish(&policies(), &mut m, &node(), p, false, 5)),
        "publish rate limit exceeded (20/s), disconnecting"
    );
    assert_eq!(m.rate_limit_disconnects_total, 1);
    let p = publish("plant/+", b"1", QoS::AtMostOnce, false);
    assert_eq!(
        failed(c.publish(&policies(), &mut m, &node(), p, true, 5)),
        "invalid publish topic \"plant/+\": wildcard '+' is not allowed in a publish topic"
    );
    let p = publish("plant/a", b"1", QoS::AtLeastOnce, false);
    match c.judge_publish(&policies(), &mut m, &node(), p, true, Verdict::Fail(SchemaFailAction::Drop), 0) {
        PublishOutcome::Accept(None, None, Some(_)) => {}
        _ => panic!("to be dropped"),
    }
}

#[test]
fn subscriptions_are_decided_and_answered() {
    let c = client();
    let mut m = Metrics::default();
    match c.subscribe(&policies(), &mut m, &node(), "plant/+/t", QoS::ExactlyOnce) {
        SubscribeDecision::Activate(key, qos) => assert_eq!((key.as_str(), qos), ("s/plant/*/t", QoS::AtLeastOnce)),
        _ => panic!("granted"),
    }
    match c.subscribe(&policies(), &mut m, &node(), "#", QoS::AtMostOnce) {
        SubscribeDecision::Refuse(Some(e)) => assert_eq!(e.text, "subscribe_denied filter=\"#\""),
        _ => panic!("refused"),
    }
    assert!(matches!(
        c.subscribe(&policies(), &mut m, &node(), "a/#/b", QoS::AtMostOnce),
        SubscribeDecision::Refuse(None)
    ));
    assert_eq!(m.subscribe_denied_total, 2);
    let (code, event) = c.subscribed(&mut m, "plant/#", QoS::AtLeastOnce, true);
    assert_eq!(code, SubscribeCode::Success(QoS::AtLeastOnce));
    assert_eq!(event.unwrap().text, "subscribe filter=plant/# qos=AtLeastOnce");
    let (code, event) = c.subscribed(&mut m, "plant/#", QoS::AtLeastOnce, false);
    assert_eq!(code, SubscribeCode::Failure);
    assert!(event.is_none());
    assert_eq!(m.subscribes_total, 1);
}

#[test]
fn unsubscribing_ends_the_task() {
    let mut r = SessionRegistry::new(10, false);
    let out = r.attach("plc1", "op", false, 1, None);
    r.insert_sub(out.session, "plant/#".into(), Sub { task: 4, qos: QoS::AtMostOnce });
    let c = Client { session: out.session, ..client() };
    let (task, event) = c.unsubscribe(&mut r, "plant/#");
    assert_eq!((task, event.text.as_str()), (Some(4), "unsubscribe filter=plant/#"));
    assert_eq!(c.unsubscribe(&mut r, "plant/#").0, None);
}

#[test]
fn life_events_in_words() {
    let c = client();
    assert_eq!(c.connect_event("1.2.3.4:5", true).text, "connect addr=1.2.3.4:5 clean=true");
    assert_eq!(c.disconnect_event(true).text, "disconnect reason=clean");
    assert_eq!(c.disconnect_event(false).text, "disconnect reason=abnormal");
    assert_eq!(kick_text(Some(KICK_SLOW)), KICK_SLOW);
    assert_eq!(kick_text(None), KICK_TAKEOVER);
}

#[test]
fn deliveries_are_counted() {
    let mut m = Metrics::default();
    count_delivery(&mut m, Delivery::Sent);
    count_delivery(&mut m, Delivery::Queued);
    count_delivery(&mut m, Delivery::Queued);
    count_delivery(&mut m, Delivery::Dropped);
    assert_eq!((m.messages_out_total, m.messages_queued_total), (1, 2));
}

#[test]
fn a_subscription_is_handed_the_retained_messages() {
    let mut r = SessionRegistry::new(10, false);
    let session = r.attach("plc1", "op", false, 1, None).session;
    let c = Client { session, ..client() };
    let mut store = RetainedStore::new();
    store.insert("plant/a".into(), encode_envelope(b"old", 1000));
    store.insert("plant/b".into(), encode_envelope(b"new", 90_000));
    store.insert("other".into(), encode_envelope(b"x", 1000));
    let mut got = c.deliver_retained(&mut r, &mut store, &policies(), "s", "plant/#", QoS::AtLeastOnce, 100_000);
    got.sort_by(|a, b| a.message.topic.cmp(&b.message.topic));
    assert_eq!(got.len(), 2);
    let mut ids: Vec<u16> = got.iter().map(|d| d.message.pkid).collect();
    ids.sort();
    assert_eq!(ids, [1, 2]);
    assert!(got.iter().all(|d| d.message.retain && d.message.qos == QoS::AtLeastOnce));
    assert_eq!(got[0].message.payload, b"old");
    assert_eq!(
        got[0].notice,
        Some(("s/@meta/plant/a".to_string(), "stale=true age_secs=99 bound_secs=60".to_string()))
    );
    assert_eq!((got[1].message.payload.as_slice(), &got[1].notice), (&b"new"[..], &None));
    assert_eq!(r.next_pkid(session), Some(3));
    let got = c.deliver_retained(&mut r, &mut store, &policies(), "s", "other", QoS::AtMostOnce, 0);
    assert_eq!((got.len(), got[0].message.pkid), (1, 0));
    assert_eq!(r.next_pkid(session), Some(4));
    let gone = Client { session: 99, ..client() };
    assert!(gone.deliver_retained(&mut r, &mut store, &policies(), "s", "#", QoS::AtLeastOnce, 0).is_empty());
}

#[test]
fn the_backlog_is_handed_over_in_order() {
    let mut r = SessionRegistry::new(10, false);
    let first = r.attach("plc1", "op", false, 1, None);
    r.detach(first.session, first.epoch, false, 0);
    for t in ["plant/1", "plant/2", "plant/3"] {
        r.deliver(first.session, t, b"x", QoS::AtLeastOnce);
    }
    let out = r.attach("plc1", "op", false, 2, None);
    let c = Client { session: out.session, ..client() };
    let got = c.deliver_backlog(&mut r, &out.backlog);
    let seen: Vec<(&str, u16, bool)> = got.iter().map(|p| (p.topic.as_str(), p.pkid, p.retain)).collect();
    assert_eq!(seen, [("plant/1", 1, false), ("plant/2", 2, false), ("plant/3", 3, false)]);
    assert!(got.iter().all(|p| p.qos == QoS::AtLeastOnce && p.payload == b"x"));
    let gone = Client { session: 99, ..client() };
    assert!(gone.deliver_backlog(&mut r, &out.backlog).is_empty());
}

#[test]
fn retained_deliveries_are_counted() {
    let mut m = Metrics::default();
    count_retained(&mut m, false);
    count_retained(&mut m, true);
    assert_eq!((m.messages_out_total, m.stale_retained_total), (2, 1));
    let p = to_client("t".into(), vec![1], QoS::AtLeastOnce, false, 9);
    assert_eq!((p.retain, p.pkid, p.dup), (false, 9, false));
}

#[test]
fn old_retained_values_are_flagged() {
    let p = policies();
    assert_eq!(stale_notice(&p, "s", "plant/a", 1000, 60_999), None);
    assert_eq!(stale_notice(&p, "s", "plant/a", 1000, 61_000), None, "exactly as old as allowed");
    let flag = |text: &str| Some(("s/@meta/plant/a".to_string(), text.to_string()));
    assert_eq!(stale_notice(&p, "s", "plant/a", 1000, 61_001), flag("stale=true age_secs=60 bound_secs=60"));
    assert_eq!(
        stale_notice(&p, "s", "plant/a", 1000, 61_999),
        Some(("s/@meta/plant/a".to_string(), "stale=true age_secs=60 bound_secs=60".to_string()))
    );
    assert_eq!(stale_notice(&p, "s", "plant/slow/a", 0, u64::MAX), None, "a bound of 0 switches it off");
    assert_eq!(stale_notice(&p, "s", "plant/a", 5000, 1000), None, "a clock that went back is no age");
}

#[test]
fn a_will_fires_once_and_obeys_the_grants() {
    let mut c = client();
    match c.fire_will(&policies(), "s", 9) {
        WillOutcome::Fire(relay) => {
            assert_eq!((relay.key.as_str(), relay.payload.as_slice()), ("s/w/gone", &b"bye"[..]));
            assert!(matches!(relay.retained, RetainedWrite::Store(k, v)
                if k == "s/@retained/w/gone" && v == encode_envelope(b"bye", 9)));
        }
        _ => panic!("to be fired"),
    }
    assert!(matches!(c.fire_will(&policies(), "s", 9), WillOutcome::Nothing));
    let will = |topic: &str, message: &[u8]| {
        Some(LastWill { topic: topic.into(), message: message.to_vec(), qos: QoS::AtMostOnce, retain: true })
    };
    c.will = will("other", b"x");
    assert!(matches!(c.fire_will(&policies(), "s", 9), WillOutcome::Denied(e) if e.text == "will_denied topic=\"other\""));
    c.will = will("w/gone", b"");
    assert!(matches!(c.fire_will(&policies(), "s", 9), WillOutcome::Fire(r) if matches!(r.retained, RetainedWrite::Leave)));
    c.will = will("w//gone", b"x");
    assert!(matches!(c.fire_will(&policies(), "s", 9), WillOutcome::Invalid));
}
