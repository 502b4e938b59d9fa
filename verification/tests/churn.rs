use entmoot::churn::{ChurnGuard, Verdict};

const SEC: u128 = 1_000_000_000;

#[test]
fn churn_disabled_admits_unconditionally() {
    let mut g = ChurnGuard::new(0, 60, 60);
    for _ in 0..20 {
        assert_eq!(g.admit_client("client-a"), Verdict::Admit);
    }
}

#[test]
fn quarantines_after_exceeding_max_reconnects_within_window() {
    let mut g = ChurnGuard::new(3, 60, 60);
    for _ in 0..3 {
        assert_eq!(g.admit_client("client-a"), Verdict::Admit);
    }
    assert_eq!(g.admit_client("client-a"), Verdict::Quarantined, "4th connect within the window should be caught");
    // Stays quarantined on subsequent attempts too, not just the one
    // that tripped it.
    assert_eq!(g.admit_client("client-a"), Verdict::Quarantined);
}

#[test]
fn other_clients_are_unaffected() {
    let mut g = ChurnGuard::new(1, 60, 60);
    assert_eq!(g.admit_client("client-a"), Verdict::Admit);
    assert_eq!(g.admit_client("client-a"), Verdict::Quarantined);
    assert_eq!(g.admit_client("client-b"), Verdict::Admit, "a different client id must not share client-a's history");
}

#[test]
fn window_expiry_resets_the_count() {
    // The window floors to one second.
    let mut g = ChurnGuard::new(1, 0, 60);
    assert_eq!(g.admit_client_at("client-a", 5 * SEC), Verdict::Admit);
    assert_eq!(
        g.admit_client_at("client-a", 6 * SEC),
        Verdict::Admit,
        "the earlier connect should have aged out of the window"
    );
    assert_eq!(g.admit_client_at("client-a", 7 * SEC - 1), Verdict::Quarantined);
}

#[test]
fn quarantine_expires_after_cooldown() {
    let mut g = ChurnGuard::new(1, 60, 2);
    assert_eq!(g.admit_client_at("client-a", SEC), Verdict::Admit);
    assert_eq!(g.admit_client_at("client-a", 2 * SEC), Verdict::Quarantined);
    assert_eq!(g.admit_client_at("client-a", 4 * SEC - 1), Verdict::Quarantined);
    assert_eq!(g.admit_client_at("client-a", 4 * SEC), Verdict::Admit, "quarantine should have expired");
}

#[test]
fn sweep_drops_idle_non_quarantined_clients() {
    let mut g = ChurnGuard::new(5, 60, 60);
    g.admit_client_at("client-a", SEC);
    assert_eq!(g.len(), 1);
    g.sweep_at(SEC, SEC / 100);
    assert_eq!(g.len(), 1, "not idle yet");
    g.sweep_at(SEC + SEC / 50, SEC / 100);
    assert_eq!(g.len(), 0, "idle entry should be swept");
}

#[test]
fn sweep_keeps_active_quarantine() {
    let mut g = ChurnGuard::new(1, 60, 60);
    g.admit_client("client-a");
    g.admit_client("client-a"); // now quarantined for 60s
    g.sweep(1); // would drop on idle alone
    assert_eq!(g.len(), 1, "an active quarantine must survive a sweep");
}

#[test]
fn a_sweep_past_the_window_changes_no_verdict() {
    let mut swept = ChurnGuard::new(2, 10, 60);
    let mut kept = ChurnGuard::new(2, 10, 60);
    for g in [&mut swept, &mut kept] {
        g.admit_client_at("client-a", SEC);
        g.admit_client_at("client-a", 2 * SEC);
    }
    swept.sweep_at(12 * SEC, 10 * SEC);
    assert_eq!(swept.len(), 0);
    assert_eq!(kept.len(), 1);
    for t in [12 * SEC, 13 * SEC, 14 * SEC] {
        assert_eq!(swept.admit_client_at("client-a", t), kept.admit_client_at("client-a", t));
    }
}

#[test]
fn equal_times_count_each() {
    let mut g = ChurnGuard::new(3, 10, 60);
    for _ in 0..3 {
        assert_eq!(g.admit_client_at("client-a", SEC), Verdict::Admit);
    }
    assert_eq!(g.admit_client_at("client-a", SEC), Verdict::Quarantined);
}

#[test]
fn verdicts_follow_the_times_through_sweeps() {
    let mut swept = ChurnGuard::new(2, 10, 30);
    let mut kept = ChurnGuard::new(2, 10, 30);
    let expected = [
        (0, Verdict::Admit),
        (5, Verdict::Admit),
        (10, Verdict::Admit), // the first one is out of the window
        (14, Verdict::Quarantined),
        (43, Verdict::Quarantined),
        (44, Verdict::Admit), // the cooldown has passed since the attempt at 14
        (45, Verdict::Admit),
        (53, Verdict::Quarantined),
    ];
    for (t, verdict) in expected {
        swept.sweep_at(t * SEC, 10 * SEC);
        swept.admit_client_at("client-b", t * SEC);
        assert_eq!(swept.admit_client_at("client-a", t * SEC), verdict);
        assert_eq!(kept.admit_client_at("client-a", t * SEC), verdict);
    }
}
