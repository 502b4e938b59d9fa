use entmoot::auth::Acl;
use entmoot::config::{AclRule, Policy};
use entmoot::durable::{
    load_queue, load_subs, queue_file_name, reinstated, save_queue, save_subs, subs_file_name, QueueError, SubsFile,
};
use entmoot::packet::QoS;
use std::collections::VecDeque;

fn queue() -> VecDeque<(String, Vec<u8>)> {
    VecDeque::from([("a/b".to_string(), b"1".to_vec()), ("ü".to_string(), vec![]), ("c".to_string(), vec![0, 255])])
}

#[test]
fn queue_files_round_trip() {
    let bytes = save_queue(&queue()).unwrap();
    assert_eq!(load_queue(&bytes, 10), Ok(queue()));
    let one = VecDeque::from([("t".to_string(), b"xy".to_vec())]);
    assert_eq!(save_queue(&one).unwrap(), b"ENTMOOT-Q1\n\x00\x00\x00\x01t\x00\x00\x00\x02xy".to_vec());
}

#[test]
fn too_long_a_queue_file_keeps_the_newest() {
    let bytes = save_queue(&queue()).unwrap();
    let topics: Vec<String> = load_queue(&bytes, 2).unwrap().into_iter().map(|m| m.0).collect();
    assert_eq!(topics, ["ü", "c"]);
    assert_eq!(load_queue(b"anything", 0), Ok(VecDeque::new()));
}

#[test]
fn damaged_queue_files_are_refused() {
    assert_eq!(load_queue(b"", 10), Err(QueueError::NotAQueue));
    assert_eq!(load_queue(b"ENTMOOT-Q2\n", 10), Err(QueueError::NotAQueue));
    assert_eq!(load_queue(b"ENTMOOT-Q1\n", 10), Ok(VecDeque::new()));
    assert_eq!(load_queue(b"ENTMOOT-Q1\n\x00\x00\x00", 10), Err(QueueError::Truncated));
    assert_eq!(load_queue(b"ENTMOOT-Q1\n\x00\x00\x00\x02a", 10), Err(QueueError::Truncated));
    assert_eq!(load_queue(b"ENTMOOT-Q1\n\x00\x00\x00\x01a", 10), Err(QueueError::Truncated));
    assert_eq!(
        load_queue(b"ENTMOOT-Q1\n\x00\x00\x00\x01\xff\x00\x00\x00\x00", 10),
        Err(QueueError::BadTopic)
    );
}

#[test]
fn file_names_are_hexadecimal() {
    assert_eq!(queue_file_name("plc/1"), "706c632f31.queue");
    assert_eq!(subs_file_name("../ü"), "2e2e2fc3bc.subs");
    assert_eq!(queue_file_name(""), ".queue");
}

fn kept() -> SubsFile {
    SubsFile {
        client_id: "plc1".into(),
        identity: "operator".into(),
        subs: vec![("plant/#".into(), QoS::AtLeastOnce), ("other".into(), QoS::AtMostOnce)],
    }
}

#[test]
fn subscription_files_round_trip() {
    let bytes = save_subs(&kept());
    assert!(bytes.starts_with(b"ENTMOOT-S1\n\x00\x00\x00\x04plc1\x00\x00\x00\x08operator\x00\x00\x00\x07plant/#\x00\x00\x00\x01\x01"));
    let back = load_subs(&bytes).unwrap();
    assert_eq!((back.client_id.as_str(), back.identity.as_str()), ("plc1", "operator"));
    assert_eq!(back.subs, kept().subs);
    assert!(load_subs(&bytes[..bytes.len() - 1]).is_none());
    assert!(load_subs(b"ENTMOOT-Q1\n").is_none());
}

#[test]
fn revoked_subscriptions_stay_down() {
    let acl = Acl::new(
        vec![AclRule { user: "operator".into(), publish: vec![], subscribe: vec!["plant/#".into()] }],
        Policy::Deny,
    );
    assert_eq!(reinstated(&acl, &kept()), [("plant/#".to_string(), QoS::AtLeastOnce)]);
    let open = Acl::new(vec![], Policy::Allow);
    assert_eq!(reinstated(&open, &kept()).len(), 2);
}
