use entmoot::admission::ConnectAdmission;

#[test]
fn admission_disabled_admits_unconditionally() {
    let mut a = ConnectAdmission::new(0, 0);
    for _ in 0..10_000 {
        assert!(a.admit_connect());
    }
}

#[test]
fn sheds_once_burst_is_exhausted() {
    let mut a = ConnectAdmission::new(5, 5);
    let admitted = (0..50).filter(|_| a.admit_connect()).count();
    // Burst of 5 admitted immediately, the rest shed within this tight loop.
    assert_eq!(admitted, 5, "expected exactly the burst to be admitted, got {admitted}");
}

#[test]
fn the_burst_is_never_less_than_the_rate() {
    let mut a = ConnectAdmission::new(5, 1);
    let admitted = (0..50).filter(|_| a.admit_connect()).count();
    assert_eq!(admitted, 5);
    let mut b = ConnectAdmission::new(5, 12);
    let admitted = (0..50).filter(|_| b.admit_connect()).count();
    assert_eq!(admitted, 12);
}

#[test]
fn the_first_connect_is_never_shed() {
    for (rate, burst) in [(1, 0), (1, 1), (5, 1), (u32::MAX, u32::MAX)] {
        let mut a = ConnectAdmission::new(rate, burst);
        assert!(a.admit_connect());
    }
    let mut a = ConnectAdmission::new(1, 1);
    assert!(a.admit_connect());
    assert!(!a.admit_connect(), "the second one within the second is shed");
}
