use entmoot::durable::load_queue;
use entmoot::packet::QoS;
use entmoot::registry::SessionRegistry;
use entmoot::session::{Delivery, SessionState, Step, Sub, KICK_SLOW, KICK_TAKEOVER};
use std::collections::VecDeque;

fn sub(task: u64) -> Sub {
    Sub { task, qos: QoS::AtLeastOnce }
}

fn deliver(r: &mut SessionRegistry, session: u64, topic: &str) -> Step {
    r.deliver(session, topic, b"x", QoS::AtLeastOnce)
}

#[test]
fn packet_ids_skip_zero_on_wrap() {
    let mut s = SessionState::new("c", "", 10, VecDeque::new(), false);
    for expected in 1..=u16::MAX {
        assert_eq!(s.next_pkid(), expected);
    }
    assert_eq!(s.next_pkid(), 1);
    assert_eq!(s.next_pkid(), 2);
}

#[test]
fn a_persistent_session_queues_while_offline_and_is_resumed() {
    let mut r = SessionRegistry::new(10, false);
    let first = r.attach("c", "u", false, 1, None);
    assert!(!first.session_present);
    assert_eq!(first.epoch, 1);
    assert_eq!(r.insert_sub(first.session, "a/#".into(), sub(7)), None);
    assert_eq!(deliver(&mut r, first.session, "a/1"), Step::Send(1, 1));
    let out = r.detach(first.session, first.epoch, false, 0);
    assert!(out.detached && out.aborted.is_empty() && !out.discard_files);
    assert_eq!(deliver(&mut r, first.session, "a/2"), Step::Done(Delivery::Queued));
    assert_eq!(
        r.deliver(first.session, "a/3", b"x", QoS::AtMostOnce),
        Step::Done(Delivery::Dropped),
        "QoS 0 is not queued"
    );
    assert_eq!(r.stats(), (1, 1, 1, 0));
    let again = r.attach("c", "u", false, 2, None);
    assert!(again.session_present);
    assert_eq!((again.session, again.epoch), (first.session, 2));
    assert_eq!(again.backlog, VecDeque::from([("a/2".to_string(), b"x".to_vec())]));
    assert_eq!(r.stats(), (1, 0, 0, 0));
    assert_eq!(deliver(&mut r, first.session, "a/4"), Step::Send(2, 2));
}

#[test]
fn a_takeover_kicks_the_old_connection_and_its_detach_is_void() {
    let mut r = SessionRegistry::new(10, false);
    let old = r.attach("c", "u", false, 1, None);
    let new = r.attach("c", "u", false, 2, None);
    assert_eq!(new.kicked, Some(1));
    assert_eq!(r.take_kick_reason(old.session), Some(KICK_TAKEOVER));
    assert_eq!(r.take_kick_reason(old.session), None, "consumed on read");
    assert!(!r.detach(old.session, old.epoch, false, 0).detached);
    assert_eq!(deliver(&mut r, new.session, "a"), Step::Send(2, 1));
}

#[test]
fn a_clean_reconnect_discards_stored_state() {
    let mut r = SessionRegistry::new(10, true);
    let old = r.attach("c", "u", false, 1, None);
    assert_eq!(r.insert_sub(old.session, "a".into(), sub(5)), None);
    let new = r.attach("c", "u", true, 2, None);
    assert!(!new.session_present);
    assert_ne!(new.session, old.session);
    assert_eq!(new.kicked, Some(1));
    assert_eq!(new.aborted, [5]);
    assert!(new.discard_queue && new.discard_subs);
    assert_eq!(r.take_kick_reason(old.session), Some(KICK_TAKEOVER));
    // The loser's end does not remove the winner.
    r.detach(old.session, old.epoch, false, 0);
    assert_eq!(deliver(&mut r, new.session, "a"), Step::Send(2, 1));
    r.insert_sub(new.session, "a".into(), sub(6));
    let out = r.detach(new.session, new.epoch, true, 0);
    assert_eq!(out.aborted, [6]);
    assert!(!out.discard_files, "a clean session has no files");
    assert_eq!(r.stats(), (0, 0, 0, 0));
}

#[test]
fn the_queue_drops_its_oldest() {
    let mut r = SessionRegistry::new(2, false);
    let a = r.attach("c", "u", false, 1, None);
    r.detach(a.session, a.epoch, false, 0);
    for t in ["1", "2", "3"] {
        assert_eq!(deliver(&mut r, a.session, t), Step::Done(Delivery::Queued));
    }
    assert_eq!(r.stats(), (1, 1, 2, 1));
    let topics: Vec<String> = r.attach("c", "u", false, 2, None).backlog.into_iter().map(|m| m.0).collect();
    assert_eq!(topics, ["2", "3"]);
    let mut none = SessionRegistry::new(0, false);
    let a = none.attach("c", "u", false, 1, None);
    none.detach(a.session, a.epoch, false, 0);
    assert_eq!(deliver(&mut none, a.session, "1"), Step::Done(Delivery::Dropped));
}

#[test]
fn a_slow_consumer_is_evicted_once() {
    let mut r = SessionRegistry::new(10, false);
    let a = r.attach("c", "u", false, 1, None);
    assert_eq!(deliver(&mut r, a.session, "1"), Step::Send(1, 1));
    assert_eq!(deliver(&mut r, a.session, "2"), Step::Send(1, 2));
    assert_eq!(r.send_failed(a.session, 1, true, 5), (true, Some(1)));
    assert_eq!(r.send_failed(a.session, 1, true, 6), (false, None), "only the first evicts");
    assert_eq!(r.take_kick_reason(a.session), Some(KICK_SLOW));
    assert_eq!(deliver(&mut r, a.session, "1"), Step::Done(Delivery::Queued));
}

#[test]
fn a_closed_connection_goes_offline_without_a_kick() {
    let mut r = SessionRegistry::new(10, false);
    let a = r.attach("c", "u", false, 1, None);
    assert_eq!(r.send_failed(a.session, 1, false, 5), (false, None));
    assert_eq!(r.take_kick_reason(a.session), None);
    assert_eq!(r.stats(), (1, 1, 0, 0));
    // A connection that was replaced meanwhile is left alone.
    let b = r.attach("c", "u", false, 2, None);
    assert_eq!(r.send_failed(b.session, 1, true, 6), (false, None));
    assert_eq!(deliver(&mut r, b.session, "1"), Step::Send(2, 1));
}

#[test]
fn resubscribing_replaces() {
    let mut r = SessionRegistry::new(10, false);
    let a = r.attach("c", "u", false, 1, None);
    assert_eq!(r.insert_sub(a.session, "x".into(), sub(1)), None);
    assert_eq!(r.insert_sub(a.session, "x".into(), sub(2)), Some(1));
    assert_eq!(r.remove_sub(a.session, "x"), Some(2));
    assert_eq!(r.remove_sub(a.session, "x"), None);
    assert_eq!(r.insert_sub(999, "x".into(), sub(3)), Some(3), "a session that is gone takes none");
}

#[test]
fn sweeping_spares_the_living_and_the_recent() {
    let mut r = SessionRegistry::new(10, true);
    let old = r.attach("old", "u", false, 1, None);
    r.insert_sub(old.session, "a".into(), sub(9));
    let recent = r.attach("recent", "u", false, 2, None);
    r.attach("live", "u", false, 3, None);
    r.detach(old.session, old.epoch, false, 100);
    r.detach(recent.session, recent.epoch, false, 150);
    let swept = r.sweep(50, 151);
    assert_eq!(swept.len(), 1);
    assert_eq!(swept[0].client_id, "old");
    assert_eq!(swept[0].aborted, [9]);
    assert!(swept[0].discard_files);
    assert_eq!(r.stats(), (2, 1, 0, 0));
    assert!(r.sweep(50, 200).is_empty(), "exactly as old as allowed stays");
    assert_eq!(r.sweep(50, 201).len(), 1);
}

#[test]
fn a_restored_session_collects_and_is_resumed() {
    let mut r = SessionRegistry::new(10, true);
    let file = b"ENTMOOT-Q1\n\x00\x00\x00\x01t\x00\x00\x00\x01p";
    let h = r.restore("c", "u", Some(file), 0);
    assert_eq!(r.stats(), (1, 1, 1, 0));
    assert_eq!(deliver(&mut r, h, "t2"), Step::Done(Delivery::Queued));
    let saved = r.queue_file(h).unwrap();
    assert_eq!(load_queue(&saved, 10).unwrap().len(), 2);
    let out = r.attach("c", "u", false, 1, None);
    assert!(out.session_present && out.discard_queue && !out.discard_subs);
    assert_eq!(out.session, h);
    assert_eq!(out.backlog.len(), 2);
    r.insert_sub(h, "a/#".into(), sub(1));
    let kept = r.subs_file(h).unwrap();
    assert_eq!((kept.client_id.as_str(), kept.identity.as_str()), ("c", "u"));
    assert_eq!(kept.subs, [("a/#".to_string(), QoS::AtLeastOnce)]);
}

#[test]
fn a_queue_file_makes_a_session_present() {
    let mut r = SessionRegistry::new(10, true);
    let out = r.attach("c", "u", false, 1, Some(b"ENTMOOT-Q1\n\x00\x00\x00\x01t\x00\x00\x00\x01p"));
    assert!(out.session_present);
    assert_eq!(out.backlog.len(), 1);
    let damaged = r.attach("d", "u", false, 2, Some(b"no queue"));
    assert!(damaged.session_present && damaged.backlog.is_empty());
    let clean = r.attach("e", "u", true, 3, Some(b"ENTMOOT-Q1\n\x00\x00\x00\x01t\x00\x00\x00\x01p"));
    assert!(!clean.session_present && clean.backlog.is_empty());
}

#[test]
fn a_loser_detaches_late_after_much_has_happened() {
    for (clean_winner, clean_loser) in [(false, false), (false, true), (true, false), (true, true)] {
        let mut r = SessionRegistry::new(10, false);
        let loser = r.attach("c", "u", false, 1, None);
        let between = r.attach("c", "u", false, 2, None);
        r.kick("c");
        r.send_failed(between.session, 2, true, 3);
        deliver(&mut r, between.session, "a");
        r.attach("other", "u", true, 3, None);
        let winner = r.attach("c", "u", clean_winner, 4, None);
        r.detach(loser.session, loser.epoch, clean_loser, 5);
        r.detach(between.session, between.epoch, clean_loser, 5);
        assert!(matches!(deliver(&mut r, winner.session, "b"), Step::Send(4, _)));
        let found = r.attach("c", "u", false, 6, None);
        assert!(found.session_present);
        assert_eq!((found.session, found.kicked), (winner.session, Some(4)));
    }
}

#[test]
fn a_backlog_is_handed_over_once() {
    let file: &[u8] = b"ENTMOOT-Q1\n\x00\x00\x00\x01t\x00\x00\x00\x01p";
    let mut r = SessionRegistry::new(10, true);
    let first = r.attach("c", "u", false, 1, Some(file));
    assert!(first.session_present && first.discard_queue);
    assert_eq!(first.backlog, VecDeque::from([("t".to_string(), b"p".to_vec())]));
    let second = r.attach("c", "u", false, 2, None);
    assert!(second.session_present && second.backlog.is_empty());
    let clean = r.attach("c", "u", true, 3, None);
    assert!(!clean.session_present && clean.backlog.is_empty() && clean.discard_queue);
    let after = r.attach("c", "u", false, 4, None);
    assert!(after.session_present && after.backlog.is_empty());
    assert_eq!(after.session, clean.session);
}
