use entmoot::packet::{encode, read_packet, ConnectCode, Incoming, Outgoing, Publish, QoS, Reading, SubscribeCode};

fn one(bytes: &[u8]) -> Incoming {
    match read_packet(bytes, 1024) {
        Reading::Packet(p, taken) => {
            assert_eq!(taken, bytes.len());
            p
        }
        Reading::NeedMore => panic!("need more"),
        Reading::Malformed(e) => panic!("{e}"),
    }
}

fn wire(p: mqttbytes::v4::Packet) -> Vec<u8> {
    let mut out = bytes::BytesMut::new();
    match p {
        mqttbytes::v4::Packet::Connect(c) => c.write(&mut out).unwrap(),
        mqttbytes::v4::Packet::Publish(c) => c.write(&mut out).unwrap(),
        mqttbytes::v4::Packet::Subscribe(c) => c.write(&mut out).unwrap(),
        mqttbytes::v4::Packet::Unsubscribe(c) => c.write(&mut out).unwrap(),
        mqttbytes::v4::Packet::PubRel(c) => c.write(&mut out).unwrap(),
        _ => panic!("not needed here"),
    };
    out.to_vec()
}

#[test]
fn a_connect_is_read_with_all_its_fields() {
    let mut c = mqttbytes::v4::Connect::new("plc1");
    c.keep_alive = 30;
    c.clean_session = false;
    c.set_login("user", "pass");
    c.last_will = Some(mqttbytes::v4::LastWill::new("plant/gone", b"bye".to_vec(), mqttbytes::QoS::AtLeastOnce, true));
    match one(&wire(mqttbytes::v4::Packet::Connect(c))) {
        Incoming::Connect(c) => {
            assert_eq!(c.keep_alive, 30);
            assert_eq!(c.client_id, "plc1");
            assert!(!c.clean_session);
            let will = c.last_will.unwrap();
            assert_eq!((will.topic.as_str(), will.message.as_slice()), ("plant/gone", &b"bye"[..]));
            assert_eq!((will.qos, will.retain), (QoS::AtLeastOnce, true));
            let login = c.login.unwrap();
            assert_eq!((login.username.as_str(), login.password.as_str()), ("user", "pass"));
        }
        other => panic!("{other:?}"),
    }
    match one(&wire(mqttbytes::v4::Packet::Connect(mqttbytes::v4::Connect::new("x")))) {
        Incoming::Connect(c) => assert!(c.last_will.is_none() && c.login.is_none() && c.clean_session),
        other => panic!("{other:?}"),
    }
}

#[test]
fn publishes_are_read() {
    let mut p = mqttbytes::v4::Publish::new("plant/kiln1", mqttbytes::QoS::ExactlyOnce, b"42".to_vec());
    p.pkid = 7;
    p.retain = true;
    match one(&wire(mqttbytes::v4::Packet::Publish(p))) {
        Incoming::Publish(p) => {
            assert_eq!((p.topic.as_str(), p.payload.as_slice()), ("plant/kiln1", &b"42"[..]));
            assert_eq!((p.qos, p.pkid, p.retain, p.dup), (QoS::ExactlyOnce, 7, true, false));
        }
        other => panic!("{other:?}"),
    }
}

#[test]
fn subscriptions_are_read() {
    let mut s = mqttbytes::v4::Subscribe::new("plant/#", mqttbytes::QoS::AtLeastOnce);
    s.pkid = 3;
    s.add("a/+".into(), mqttbytes::QoS::ExactlyOnce);
    match one(&wire(mqttbytes::v4::Packet::Subscribe(s))) {
        Incoming::Subscribe(pkid, filters) => {
            assert_eq!(pkid, 3);
            assert_eq!(
                filters,
                [("plant/#".to_string(), QoS::AtLeastOnce), ("a/+".to_string(), QoS::ExactlyOnce)]
            );
        }
        other => panic!("{other:?}"),
    }
    let mut u = mqttbytes::v4::Unsubscribe::new("plant/#");
    u.pkid = 4;
    match one(&wire(mqttbytes::v4::Packet::Unsubscribe(u))) {
        Incoming::Unsubscribe(pkid, filters) => {
            assert_eq!((pkid, filters), (4, vec!["plant/#".to_string()]));
        }
        other => panic!("{other:?}"),
    }
    match one(&wire(mqttbytes::v4::Packet::PubRel(mqttbytes::v4::PubRel::new(9)))) {
        Incoming::PubRel(pkid) => assert_eq!(pkid, 9),
        other => panic!("{other:?}"),
    }
}

#[test]
fn small_packets_are_read() {
    assert!(matches!(one(&[0xC0, 0]), Incoming::PingReq));
    assert!(matches!(one(&[0xE0, 0]), Incoming::Disconnect));
    assert!(matches!(one(&[0x40, 2, 0, 1]), Incoming::Ack));
    assert!(matches!(one(&[0x50, 2, 0, 1]), Incoming::Ack));
    assert!(matches!(one(&[0x70, 2, 0, 1]), Incoming::Ack));
}

#[test]
fn packets_of_a_broker_are_named() {
    let words = |bytes: &[u8]| match one(bytes) {
        Incoming::Unexpected(words) => words,
        other => panic!("{other:?}"),
    };
    assert_eq!(words(&[0xD0, 0]), "PingResp");
    assert_eq!(words(&[0x20, 2, 0, 0]), "ConnAck(ConnAck { session_present: false, code: Success })");
    assert_eq!(words(&[0xB0, 2, 0, 7]), "UnsubAck(UnsubAck { pkid: 7 })");
    assert_eq!(words(&[0x90, 3, 0, 7, 1]), "SubAck(SubAck { pkid: 7, return_codes: [Success(AtLeastOnce)] })");
}

#[test]
fn incomplete_and_malformed_bytes() {
    assert!(matches!(read_packet(b"", 1024), Reading::NeedMore));
    assert!(matches!(read_packet(&[0xC0], 1024), Reading::NeedMore));
    assert!(matches!(read_packet(&[0x40, 2, 0], 1024), Reading::NeedMore));
    match read_packet(&[0x40, 2, 0, 1, 0xC0], 1024) {
        Reading::Packet(Incoming::Ack, taken) => assert_eq!(taken, 4),
        _ => panic!("the first packet stands alone"),
    }
    match read_packet(&[0xF0, 0], 1024) {
        Reading::Malformed(e) => assert_eq!(e, "Error = InvalidPacketType(15)"),
        _ => panic!("no such packet"),
    }
    assert!(matches!(read_packet(&[0x30, 100], 10), Reading::Malformed(_)));
}

#[test]
fn acknowledgements_are_written() {
    let bytes = |p: Outgoing| encode(&p).unwrap();
    assert_eq!(bytes(Outgoing::ConnAck(true, ConnectCode::Success)), [0x20, 2, 1, 0]);
    assert_eq!(bytes(Outgoing::ConnAck(false, ConnectCode::ServiceUnavailable)), [0x20, 2, 0, 3]);
    assert_eq!(bytes(Outgoing::ConnAck(false, ConnectCode::BadUserNamePassword)), [0x20, 2, 0, 4]);
    assert_eq!(bytes(Outgoing::ConnAck(false, ConnectCode::NotAuthorized)), [0x20, 2, 0, 5]);
    assert_eq!(bytes(Outgoing::PubAck(0x1234)), [0x40, 2, 0x12, 0x34]);
    assert_eq!(bytes(Outgoing::PubRec(1)), [0x50, 2, 0, 1]);
    assert_eq!(bytes(Outgoing::PubComp(1)), [0x70, 2, 0, 1]);
    assert_eq!(bytes(Outgoing::UnsubAck(258)), [0xB0, 2, 1, 2]);
    assert_eq!(bytes(Outgoing::PingResp), [0xD0, 0]);
    assert_eq!(
        bytes(Outgoing::SubAck(
            5,
            vec![
                SubscribeCode::Success(QoS::AtMostOnce),
                SubscribeCode::Success(QoS::AtLeastOnce),
                SubscribeCode::Failure
            ]
        )),
        [0x90, 5, 0, 5, 0, 1, 0x80]
    );
}

fn publish(qos: QoS, pkid: u16, payload: Vec<u8>) -> Outgoing {
    Outgoing::Publish(Publish { dup: false, qos, retain: true, topic: "a/b".into(), pkid, payload })
}

#[test]
fn publishes_are_written() {
    assert_eq!(
        encode(&publish(QoS::AtLeastOnce, 10, b"xy".to_vec())).unwrap(),
        [0x33, 9, 0, 3, b'a', b'/', b'b', 0, 10, b'x', b'y']
    );
    assert_eq!(
        encode(&publish(QoS::AtMostOnce, 10, b"xy".to_vec())).unwrap(),
        [0x31, 7, 0, 3, b'a', b'/', b'b', b'x', b'y']
    );
    let long = encode(&publish(QoS::AtMostOnce, 0, vec![7; 200])).unwrap();
    assert_eq!(&long[..4], [0x31, 0xCD, 0x01, 0]);
    assert_eq!(long.len(), 3 + 205);
    assert!(encode(&publish(QoS::AtLeastOnce, 0, vec![])).is_none(), "a packet id of 0 is invalid");
}
