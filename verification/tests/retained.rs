use entmoot::retained::{decode_envelope, encode_envelope, RetainedStore, Sample, SnapshotError};

fn names(found: &[(String, Vec<u8>, u64)]) -> Vec<String> {
    let mut v: Vec<String> = found.iter().map(|m| m.0.clone()).collect();
    v.sort();
    v
}

#[test]
fn envelopes_carry_the_time() {
    let e = encode_envelope(b"100", 1_700_000_000_123);
    assert_eq!(e, b"\x00\x00\x01\x8b\xcf\xe5\x68\x7b100".to_vec());
    assert_eq!(decode_envelope(&e), (b"100".to_vec(), 1_700_000_000_123));
    assert_eq!(decode_envelope(b"short"), (b"short".to_vec(), 0));
    assert_eq!(decode_envelope(&encode_envelope(b"", u64::MAX)), (Vec::new(), u64::MAX));
}

#[test]
fn matching_finds_what_the_filter_asks_for() {
    let mut s = RetainedStore::default();
    assert!(s.is_empty());
    s.insert("plant/kiln1/temp".into(), encode_envelope(b"1", 5));
    s.insert("plant/oven2/temp".into(), encode_envelope(b"2", 6));
    s.insert("other".into(), encode_envelope(b"3", 7));
    s.insert("plant/kiln1/temp".into(), encode_envelope(b"4", 8));
    assert_eq!(s.len(), 3);
    assert_eq!(names(&s.matching("plant/#")), ["plant/kiln1/temp", "plant/oven2/temp"]);
    assert_eq!(s.matching("plant/kiln1/+"), [("plant/kiln1/temp".to_string(), b"4".to_vec(), 8)]);
    s.remove("plant/kiln1/temp");
    assert_eq!(names(&s.matching("plant/#")), ["plant/oven2/temp"]);
    assert_eq!(s.scan_count(), 3);
}

#[test]
fn one_scan_serves_many_subscriptions_until_a_change() {
    let mut s = RetainedStore::new();
    s.insert("plant/kiln1/temp".into(), encode_envelope(b"1", 5));
    for _ in 0..20 {
        let found = s.matching_cached("plant/#");
        assert_eq!(found.len(), 1);
        assert_eq!(found[0].1, b"1");
    }
    assert_eq!(s.scan_count(), 1);
    assert_eq!(s.matching_cached("plant/kiln1/+").len(), 1);
    assert_eq!(s.scan_count(), 2, "another filter is another scan");
    s.insert("plant/oven2/temp".into(), encode_envelope(b"2", 6));
    assert_eq!(s.matching_cached("plant/#").len(), 2);
    assert_eq!(s.scan_count(), 3);
    s.remove("plant/kiln1/temp");
    assert_eq!(names(&s.matching_cached("plant/#")), ["plant/oven2/temp"]);
    assert_eq!(s.scan_count(), 4);
}

#[test]
fn a_change_at_once_after_a_scan_is_seen() {
    let mut s = RetainedStore::new();
    for i in 0..200u64 {
        s.insert("a".into(), encode_envelope(b"x", i));
        assert_eq!(s.matching_cached("a")[0].2, i);
        s.remove("a");
        assert!(s.matching_cached("a").is_empty());
    }
}

#[test]
fn a_snapshot_is_merged_into_what_is_there() {
    let mut s = RetainedStore::new();
    s.insert("a".into(), b"snapshot".to_vec());
    s.insert("b".into(), b"snapshot".to_vec());
    let mut t = RetainedStore::new();
    t.insert("b".into(), b"own".to_vec());
    t.insert("c".into(), b"own".to_vec());
    assert_eq!(t.load_snapshot(&s.save_snapshot()), Ok(2));
    let mut all = t.snapshot();
    all.sort();
    let entry = |t: &str, v: &str| (t.to_string(), v.as_bytes().to_vec());
    assert_eq!(all, [entry("a", "snapshot"), entry("b", "snapshot"), entry("c", "own")]);
}

#[test]
fn a_loaded_snapshot_is_found_at_once() {
    let mut s = RetainedStore::new();
    assert_eq!(s.matching_cached("#").len(), 0);
    let mut other = RetainedStore::new();
    other.insert("a".into(), encode_envelope(b"1", 5));
    assert_eq!(s.scan_count(), 1);
    assert_eq!(s.load_snapshot(b"no snapshot"), Err(SnapshotError::NotASnapshot));
    assert_eq!(s.matching_cached("#").len(), 0);
    assert_eq!(s.scan_count(), 1, "a file that is no snapshot changes nothing");
    assert_eq!(s.load_snapshot(&other.save_snapshot()), Ok(1));
    assert_eq!(s.matching_cached("#").len(), 1);
    assert_eq!(s.scan_count(), 2);
}

#[test]
fn entries_stay_in_place_when_others_leave() {
    let mut s = RetainedStore::new();
    for i in 0..50u8 {
        s.insert(format!("t/{i}"), vec![i]);
    }
    for i in (0..50u8).filter(|i| i % 3 == 0) {
        s.remove(&format!("t/{i}"));
        s.remove(&format!("t/{i}"));
    }
    s.insert("t/1".into(), vec![101]);
    let mut left = s.snapshot();
    left.sort();
    let mut expected: Vec<(String, Vec<u8>)> = (0..50u8)
        .filter(|i| i % 3 != 0)
        .map(|i| (format!("t/{i}"), vec![if i == 1 { 101 } else { i }]))
        .collect();
    expected.sort();
    assert_eq!(left, expected);
}

#[test]
fn snapshots_round_trip() {
    let mut s = RetainedStore::new();
    s.insert("plant/kiln1/temp".into(), encode_envelope(b"1", 5));
    s.insert("knödel".into(), vec![0, 255]);
    assert!(s.take_dirty());
    assert!(!s.take_dirty());
    let bytes = s.save_snapshot();
    let mut t = RetainedStore::new();
    assert_eq!(t.load_snapshot(&bytes), Ok(2));
    assert!(!t.take_dirty(), "what was just loaded needs no saving");
    let mut a = s.snapshot();
    let mut b = t.snapshot();
    a.sort();
    b.sort();
    assert_eq!(a, b);
    assert_eq!(
        {
            let mut one = RetainedStore::new();
            one.insert("a".into(), b"xy".to_vec());
            one.save_snapshot()
        },
        b"ENTMOOT-RET1\n\x00\x00\x00\x01a\x00\x00\x00\x02xy".to_vec()
    );
}

#[test]
fn damaged_snapshots_are_refused() {
    let mut s = RetainedStore::new();
    assert_eq!(s.load_snapshot(b"ENTMOOT-RET2\n"), Err(SnapshotError::NotASnapshot));
    assert_eq!(s.load_snapshot(b""), Err(SnapshotError::NotASnapshot));
    assert_eq!(s.load_snapshot(b"ENTMOOT-RET1\n"), Ok(0));
    assert_eq!(s.load_snapshot(b"ENTMOOT-RET1\n\x00\x00"), Err(SnapshotError::Truncated));
    assert_eq!(s.load_snapshot(b"ENTMOOT-RET1\n\x00\x00\x00\x01a"), Err(SnapshotError::Truncated));
    assert_eq!(
        s.load_snapshot(b"ENTMOOT-RET1\n\x00\x00\x00\x01\xff\x00\x00\x00\x00"),
        Err(SnapshotError::BadTopic)
    );
    // What stands before the damage is kept.
    assert_eq!(
        s.load_snapshot(b"ENTMOOT-RET1\n\x00\x00\x00\x01a\x00\x00\x00\x01b\x00"),
        Err(SnapshotError::Truncated)
    );
    assert_eq!(s.snapshot(), [("a".to_string(), b"b".to_vec())]);
}

#[test]
fn a_late_joiner_catches_up() {
    let mut s = RetainedStore::new();
    s.insert("a".into(), b"1".to_vec());
    s.insert("b/c".into(), b"2".to_vec());
    let mut t = RetainedStore::new();
    for (key, value) in s.replies("plant-a") {
        assert!(t.apply_sample(&key, "plant-a", Sample::Put(value)));
    }
    let mut a = s.snapshot();
    let mut b = t.snapshot();
    a.sort();
    b.sort();
    assert_eq!(a, b);
    assert!(t.apply_sample("plant-a/@retained/a", "plant-a", Sample::Delete));
    assert_eq!(t.len(), 1);
    assert!(!t.apply_sample("plant-b/@retained/a", "plant-a", Sample::Put(vec![])));
    assert_eq!(t.len(), 1);
}
