use entmoot::churn::ChurnGuard;
use entmoot::clock::{Stopwatch, MAX_NANOS};

#[test]
fn a_stopwatch_goes_on_and_never_back() {
    let mut w = Stopwatch::start();
    let first = w.nanos();
    let mut last = first;
    while last < first + 1_000_000 {
        let now = w.nanos();
        assert!(last <= now && now <= MAX_NANOS);
        last = now;
    }
}

#[test]
fn the_guard_reads_a_clock_that_goes_on() {
    let mut g = ChurnGuard::new(3, 60, 60);
    let first = g.clock_nanos();
    g.admit_client("client-a");
    let mut last = g.clock_nanos();
    assert!(first <= last);
    while last == first {
        last = g.clock_nanos();
    }
    assert!(first < last);
    assert_eq!(g.len(), 1);
}
