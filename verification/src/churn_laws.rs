//! Laws of the reconnect quarantine: how long it lasts, which connects count, and that a
//! sweep forgets nothing that matters.

use crate::churn::{self, ChurnRules, History, Verdict};
use crate::clock::MAX_NANOS;
use vstd::prelude::*;

verus! {

/// Once quarantined, a client stays so until the cooldown has passed: no attempt
/// before that is admitted, and none makes the quarantine longer.
pub proof fn law_quarantine_lasts(
    rules: ChurnRules,
    h: History,
    tripped: u128,
    later: u128,
)
    requires
        rules.cooldown <= MAX_NANOS,
        tripped <= MAX_NANOS,
        h.until is None,
        churn::attempt(rules, h, tripped).1 == Verdict::Quarantined,
        later < tripped + rules.cooldown,
    ensures
        churn::attempt(rules, churn::attempt(rules, h, tripped).0, later) == (
            churn::attempt(rules, h, tripped).0,
            Verdict::Quarantined,
        ),
{
}

/// When the cooldown has passed, the client starts from a clean history.
pub proof fn law_quarantine_ends(rules: ChurnRules, h: History, until: u128, later: u128)
    requires
        rules.max_reconnects > 0,
        h.until == Some(until),
        until <= later,
    ensures
        churn::attempt(rules, h, later) == (
            History { connects: seq![later], until: None },
            Verdict::Admit,
        ),
{
    assert(Seq::<u128>::empty().push(later) =~= seq![later]);
}

/// An admitted client has connected at most `max_reconnects` times within the window,
/// this time included; the one attempt more is what trips the quarantine.
pub proof fn law_admitted_means_under_the_limit(rules: ChurnRules, h: History, now: u128)
    requires
        rules.window > 0,
        h.until is None,
        in_order(h),
    ensures
        ({
            let (next, verdict) = churn::attempt(rules, h, now);
            &&& (verdict == Verdict::Admit <==> next.connects.len() <= rules.max_reconnects)
            &&& forall|i: int|
                0 <= i < next.connects.len() ==> churn::since(now, #[trigger] next.connects[i])
                    < rules.window
        }),
{
    lemma_recent_is_in_window(h.connects, now, rules.window);
    broadcast use vstd::seq_lib::group_filter_ensures;
    let kept = churn::recent(h.connects, now, rules.window);
    assert forall|i: int| 0 <= i < kept.push(now).len() implies churn::since(
        now,
        #[trigger] kept.push(now)[i],
    ) < rules.window by {
        if i < kept.len() {
            assert(kept.push(now)[i] == kept[i]);
        }
    }
}

/// A history in the order of time.
pub open spec fn in_order(h: History) -> bool {
    forall|i: int, j: int|
        0 <= i <= j < h.connects.len() ==> #[trigger] h.connects[i] <= #[trigger] h.connects[j]
}

/// As long as the clock does not go back, a history stays in the order of time, and its
/// last entry is no later than the last attempt.
pub proof fn law_histories_stay_in_order(rules: ChurnRules, h: History, now: u128)
    requires
        in_order(h),
        h.connects.len() > 0 ==> h.connects.last() <= now,
    ensures
        in_order(churn::attempt(rules, h, now).0),
        churn::attempt(rules, h, now).0.connects.len() > 0 ==> churn::attempt(rules, h, now).0.connects.last()
            <= now,
{
    lemma_recent_is_suffix(h.connects, now, rules.window);
    let kept = churn::recent(h.connects, now, rules.window);
    let dropped = h.connects.len() - kept.len();
    assert forall|i: int, j: int| 0 <= i <= j < kept.push(now).len() implies #[trigger] kept.push(
        now,
    )[i] <= #[trigger] kept.push(now)[j] by {
        if i < kept.len() {
            assert(kept.push(now)[i] == h.connects[i + dropped]);
            assert(h.connects[i + dropped] <= h.connects[h.connects.len() - 1]);
        }
        if j < kept.len() {
            assert(kept.push(now)[j] == h.connects[j + dropped]);
        }
    }
}

proof fn lemma_recent_is_suffix(connects: Seq<u128>, now: u128, window: u128)
    ensures
        churn::recent(connects, now, window).len() <= connects.len(),
        churn::recent(connects, now, window) == connects.skip(
            connects.len() - churn::recent(connects, now, window).len(),
        ),
    decreases connects.len(),
{
    if connects.len() > 0 && churn::since(now, connects[0]) >= window {
        lemma_recent_is_suffix(connects.skip(1), now, window);
        let kept = churn::recent(connects.skip(1), now, window);
        assert(connects.skip(1).skip(connects.len() - 1 - kept.len()) =~= connects.skip(
            connects.len() - kept.len(),
        ));
    } else {
        assert(connects.skip(0) =~= connects);
    }
}

/// One client's attempts leave every other client's history alone.
pub proof fn law_clients_are_independent(
    rules: ChurnRules,
    clients: Map<Seq<char>, History>,
    client_id: Seq<char>,
    other: Seq<char>,
    now: u128,
)
    requires
        other != client_id,
    ensures
        churn::history_of(churn::guarded_attempt(rules, clients, client_id, now).0, other) == churn::history_of(
            clients,
            other,
        ),
{
}

/// A sweep never forgets a running quarantine.
pub proof fn law_sweep_keeps_quarantines(
    clients: Map<Seq<char>, History>,
    client_id: Seq<char>,
    now: u128,
    idle_after: u128,
)
    requires
        clients.dom().contains(client_id),
        clients[client_id].until matches Some(until) && now < until,
    ensures
        churn::history_of(churn::swept(clients, now, idle_after), client_id) == clients[client_id],
{
}

/// A sweep whose idle time is no shorter than the window changes no later decision:
/// what it forgets would have aged out by itself.
pub proof fn law_sweep_changes_no_verdict(
    rules: ChurnRules,
    clients: Map<Seq<char>, History>,
    client_id: Seq<char>,
    swept_at: u128,
    idle_after: u128,
    now: u128,
)
    requires
        rules.window <= idle_after,
        swept_at <= now,
        in_order(churn::history_of(clients, client_id)),
    ensures
        churn::attempt(rules, churn::history_of(churn::swept(clients, swept_at, idle_after), client_id), now) == churn::attempt(
            rules,
            churn::history_of(clients, client_id),
            now,
        ),
{
    let h = churn::history_of(clients, client_id);
    if clients.dom().contains(client_id) && !churn::survives(h, swept_at, idle_after) {
        if h.until is None {
            lemma_all_aged_out(h.connects, swept_at, now, rules.window, idle_after);
        }
        assert(churn::recent(Seq::<u128>::empty(), now, rules.window) =~= Seq::<u128>::empty());
    }
}

proof fn lemma_all_aged_out(
    connects: Seq<u128>,
    swept_at: u128,
    now: u128,
    window: u128,
    idle_after: u128,
)
    requires
        window <= idle_after,
        swept_at <= now,
        connects.len() > 0 ==> churn::since(swept_at, connects.last()) >= idle_after,
        forall|i: int, j: int|
            0 <= i <= j < connects.len() ==> #[trigger] connects[i] <= #[trigger] connects[j],
    ensures
        churn::recent(connects, now, window) == Seq::<u128>::empty(),
    decreases connects.len(),
{
    if connects.len() > 0 {
        assert(connects[0] <= connects[connects.len() - 1]);
        let rest = connects.skip(1);
        assert(rest.len() > 0 ==> rest.last() == connects.last());
        lemma_all_aged_out(rest, swept_at, now, window, idle_after);
    } else {
        assert(connects =~= Seq::<u128>::empty());
    }
}

/// The history of a client after attempts at given times, from the first on.
pub open spec fn history(rules: ChurnRules, times: Seq<u128>) -> History
    decreases times.len(),
{
    if times.len() == 0 {
        churn::no_history()
    } else {
        churn::attempt(rules, history(rules, times.drop_last()), times.last()).0
    }
}

/// The verdicts on attempts at given times, from the first on.
pub open spec fn verdicts(rules: ChurnRules, times: Seq<u128>) -> Seq<Verdict>
    decreases times.len(),
{
    if times.len() == 0 {
        Seq::empty()
    } else {
        verdicts(rules, times.drop_last()).push(
            churn::attempt(rules, history(rules, times.drop_last()), times.last()).1,
        )
    }
}

/// Where the last run of equal verdicts begins: with the first attempt that was let in
/// since the last quarantine, or with the one that brought on the last quarantine.
pub open spec fn run_start(v: Seq<Verdict>) -> nat
    decreases v.len(),
{
    if v.len() <= 1 {
        0
    } else if v[v.len() - 2] == v.last() {
        run_start(v.drop_last())
    } else {
        (v.len() - 1) as nat
    }
}

/// The times that lie within the window.
pub open spec fn in_window(times: Seq<u128>, now: u128, window: u128) -> Seq<u128> {
    times.filter(|t: u128| churn::since(now, t) < window)
}

/// Times in the order of time, none past the end of the clock.
pub open spec fn ordered(times: Seq<u128>) -> bool {
    &&& forall|i: int, j: int| 0 <= i <= j < times.len() ==> #[trigger] times[i] <= #[trigger] times[j]
    &&& forall|i: int| 0 <= i < times.len() ==> #[trigger] times[i] <= MAX_NANOS
}

/// The connects kept are those within the window, each as often as it occurs, when they
/// came in order.
proof fn lemma_recent_is_in_window(connects: Seq<u128>, now: u128, window: u128)
    requires
        forall|i: int, j: int|
            0 <= i <= j < connects.len() ==> #[trigger] connects[i] <= #[trigger] connects[j],
    ensures
        churn::recent(connects, now, window) == in_window(connects, now, window),
    decreases connects.len(),
{
    let inside = |t: u128| churn::since(now, t) < window;
    if connects.len() == 0 {
        assert(connects.filter(inside) =~= connects) by {
            reveal(Seq::filter);
        }
    } else if churn::since(now, connects[0]) >= window {
        let rest = connects.skip(1);
        assert forall|i: int, j: int| 0 <= i <= j < rest.len() implies #[trigger] rest[i]
            <= #[trigger] rest[j] by {
            assert(connects[i + 1] <= connects[j + 1]);
        }
        lemma_recent_is_in_window(rest, now, window);
        assert(seq![connects[0]] + rest =~= connects);
        Seq::filter_distributes_over_add(seq![connects[0]], rest, inside);
        assert(seq![connects[0]].filter(inside) =~= Seq::<u128>::empty()) by {
            reveal_with_fuel(Seq::filter, 2);
            assert(seq![connects[0]].drop_last() =~= Seq::<u128>::empty());
        }
        assert(connects.filter(inside) =~= rest.filter(inside));
    } else {
        assert forall|i: int| 0 <= i < connects.len() implies inside(#[trigger] connects[i]) by {
            assert(connects[0] <= connects[i]);
        }
        lemma_filter_keeps_all(connects, inside);
    }
}

proof fn lemma_filter_keeps_all(s: Seq<u128>, p: spec_fn(u128) -> bool)
    requires
        forall|i: int| 0 <= i < s.len() ==> p(#[trigger] s[i]),
    ensures
        s.filter(p) == s,
    decreases s.len(),
{
    reveal(Seq::filter);
    if s.len() > 0 {
        assert forall|i: int| 0 <= i < s.drop_last().len() implies p(#[trigger] s.drop_last()[i]) by {
            assert(p(s[i]));
        }
        lemma_filter_keeps_all(s.drop_last(), p);
        assert(p(s[s.len() - 1]));
        assert(s.drop_last().push(s.last()) =~= s);
    } else {
        assert(s.filter(p) =~= s);
    }
}

/// What lies within the window at a later time lay within it before, and what is dropped
/// at the front of an ordered list for its age is missed by no later look.
proof fn lemma_later_window(times: Seq<u128>, before: u128, now: u128, window: u128)
    requires
        before <= now,
        forall|i: int, j: int|
            0 <= i <= j < times.len() ==> #[trigger] times[i] <= #[trigger] times[j],
    ensures
        churn::recent(churn::recent(times, before, window), now, window) == churn::recent(times, now, window),
    decreases times.len(),
{
    if times.len() > 0 && churn::since(before, times[0]) >= window {
        let rest = times.skip(1);
        assert forall|i: int, j: int| 0 <= i <= j < rest.len() implies #[trigger] rest[i]
            <= #[trigger] rest[j] by {
            assert(times[i + 1] <= times[j + 1]);
        }
        lemma_later_window(rest, before, now, window);
        assert(churn::since(now, times[0]) >= window);
    }
}

/// The state of a client after a run of attempts, told by the times alone.
proof fn lemma_run(rules: ChurnRules, times: Seq<u128>)
    requires
        rules.max_reconnects > 0,
        rules.window > 0,
        rules.cooldown <= MAX_NANOS,
        ordered(times),
        times.len() > 0,
    ensures
        ({
            let v = verdicts(rules, times);
            let h = history(rules, times);
            let first = run_start(v);
            &&& v.len() == times.len()
            &&& first < times.len()
            &&& v.last() == Verdict::Quarantined ==> h.until == Some(
                (times[first as int] + rules.cooldown) as u128,
            )
            &&& v.last() == Verdict::Admit ==> h.until is None && h.connects == in_window(
                times.skip(first as int),
                times.last(),
                rules.window,
            )
        }),
    decreases times.len(),
{
    let earlier = times.drop_last();
    let now = times.last();
    let v = verdicts(rules, times);
    let h0 = history(rules, earlier);
    let first = run_start(v);
    assert forall|i: int, j: int| 0 <= i <= j < earlier.len() implies #[trigger] earlier[i]
        <= #[trigger] earlier[j] by {
        assert(times[i] <= times[j]);
    }
    assert(ordered(earlier)) by {
        assert forall|i: int| 0 <= i < earlier.len() implies #[trigger] earlier[i] <= MAX_NANOS by {
            assert(times[i] <= MAX_NANOS);
        }
    }
    assert(times[times.len() - 1] <= MAX_NANOS);
    if earlier.len() == 0 {
        assert(verdicts(rules, earlier).len() == 0);
        assert(churn::recent(Seq::<u128>::empty(), now, rules.window) =~= Seq::<u128>::empty());
        assert(times.skip(0) =~= Seq::<u128>::empty().push(now));
        lemma_window_push(Seq::<u128>::empty(), now, rules.window);
        assert(in_window(Seq::<u128>::empty(), now, rules.window) =~= Seq::<u128>::empty()) by {
            reveal(Seq::filter);
        }
    } else {
        lemma_run(rules, earlier);
        let v0 = verdicts(rules, earlier);
        let s0 = run_start(v0);
        assert(v.drop_last() =~= v0);
        assert(v[v.len() - 2] == v0.last());
        assert(earlier[earlier.len() - 1] <= now) by {
            assert(times[times.len() - 2] <= times[times.len() - 1]);
        }
        if v0.last() == Verdict::Quarantined {
            let until = (earlier[s0 as int] + rules.cooldown) as u128;
            if now >= until {
                assert(times.skip(times.len() - 1) =~= Seq::<u128>::empty().push(now));
                lemma_window_push(Seq::<u128>::empty(), now, rules.window);
                assert(in_window(Seq::<u128>::empty(), now, rules.window) =~= Seq::<u128>::empty())
                    by {
                    reveal(Seq::filter);
                }
            }
        } else {
            let run = earlier.skip(s0 as int);
            assert forall|i: int, j: int| 0 <= i <= j < run.len() implies #[trigger] run[i]
                <= #[trigger] run[j] by {
                assert(earlier[i + s0] <= earlier[j + s0]);
            }
            lemma_recent_is_in_window(run, earlier.last(), rules.window);
            lemma_later_window(run, earlier.last(), now, rules.window);
            lemma_recent_is_in_window(run, now, rules.window);
            assert(times.skip(s0 as int) =~= run.push(now));
            lemma_window_push(run, now, rules.window);
        }
    }
}

/// An attempt at this very time lies within the window.
proof fn lemma_window_push(times: Seq<u128>, now: u128, window: u128)
    requires
        window > 0,
    ensures
        in_window(times.push(now), now, window) == in_window(times, now, window).push(now),
{
    reveal(Seq::filter);
    assert(times.push(now).drop_last() =~= times);
}

/// What is kept of a client that is let in are exactly its connects since its last
/// quarantine that lie within the window, each as often as it occurs: so their number is
/// the number of connects that were let in within the window.
pub proof fn law_history_is_the_window(rules: ChurnRules, times: Seq<u128>)
    requires
        rules.max_reconnects > 0,
        rules.window > 0,
        rules.cooldown <= MAX_NANOS,
        ordered(times),
        times.len() > 0,
        verdicts(rules, times).last() == Verdict::Admit,
    ensures
        ({
            let first = run_start(verdicts(rules, times)) as int;
            let kept = history(rules, times).connects;
            &&& kept == in_window(times.skip(first), times.last(), rules.window)
            &&& kept.len() <= rules.max_reconnects
        }),
{
    lemma_run(rules, times);
}

/// Every verdict of a run of attempts, told by the times alone. A client in quarantine
/// stays there until the cooldown has passed since the attempt that brought it on, and is
/// let in then. Another is let in exactly where fewer connects than the limit, of those
/// since its last quarantine, lie within the window.
pub proof fn law_verdicts_follow_the_times(rules: ChurnRules, times: Seq<u128>)
    requires
        rules.max_reconnects > 0,
        rules.window > 0,
        rules.cooldown <= MAX_NANOS,
        ordered(times),
        times.len() > 0,
    ensures
        ({
            let earlier = times.drop_last();
            let now = times.last();
            let v = verdicts(rules, earlier);
            let first = run_start(v) as int;
            verdicts(rules, times).last() == (if v.len() > 0 && v.last() == Verdict::Quarantined {
                if now < earlier[first] + rules.cooldown {
                    Verdict::Quarantined
                } else {
                    Verdict::Admit
                }
            } else if in_window(earlier.skip(first), now, rules.window).len()
                < rules.max_reconnects {
                Verdict::Admit
            } else {
                Verdict::Quarantined
            })
        }),
{
    let earlier = times.drop_last();
    let now = times.last();
    assert forall|i: int, j: int| 0 <= i <= j < earlier.len() implies #[trigger] earlier[i]
        <= #[trigger] earlier[j] by {
        assert(times[i] <= times[j]);
    }
    assert(ordered(earlier)) by {
        assert forall|i: int| 0 <= i < earlier.len() implies #[trigger] earlier[i] <= MAX_NANOS by {
            assert(times[i] <= MAX_NANOS);
        }
    }
    assert(times[times.len() - 1] <= MAX_NANOS);
    if earlier.len() == 0 {
        assert(verdicts(rules, earlier).len() == 0);
        assert(churn::recent(Seq::<u128>::empty(), now, rules.window) =~= Seq::<u128>::empty());
        assert(in_window(earlier.skip(0), now, rules.window) =~= Seq::<u128>::empty()) by {
            reveal(Seq::filter);
            assert(earlier.skip(0).len() == 0);
        }
    } else {
        lemma_run(rules, earlier);
        let v = verdicts(rules, earlier);
        let run = earlier.skip(run_start(v) as int);
        if v.last() == Verdict::Admit {
            assert forall|i: int, j: int| 0 <= i <= j < run.len() implies #[trigger] run[i]
                <= #[trigger] run[j] by {
                assert(earlier[i + run_start(v)] <= earlier[j + run_start(v)]);
            }
            assert(earlier[earlier.len() - 1] <= now) by {
                assert(times[times.len() - 2] <= times[times.len() - 1]);
            }
            lemma_recent_is_in_window(run, earlier.last(), rules.window);
            lemma_later_window(run, earlier.last(), now, rules.window);
            lemma_recent_is_in_window(run, now, rules.window);
        }
    }
}

/// What can happen to the histories of a guard.
pub enum Event {
    /// A client id makes an attempt at a time.
    Attempt(Seq<char>, u128),
    /// A sweep at a time, for an idle time.
    Sweep(u128, u128),
}

/// The time of an event.
pub open spec fn time_of(e: Event) -> u128 {
    match e {
        Event::Attempt(_, now) => now,
        Event::Sweep(now, _) => now,
    }
}

/// The histories after an event.
pub open spec fn after_event(
    rules: ChurnRules,
    clients: Map<Seq<char>, History>,
    e: Event,
) -> Map<Seq<char>, History> {
    match e {
        Event::Attempt(client_id, now) => churn::guarded_attempt(rules, clients, client_id, now).0,
        Event::Sweep(now, idle_after) => churn::swept(clients, now, idle_after),
    }
}

/// The verdict on an event; none on a sweep.
pub open spec fn event_verdict(
    rules: ChurnRules,
    clients: Map<Seq<char>, History>,
    e: Event,
) -> Option<Verdict> {
    match e {
        Event::Attempt(client_id, now) => Some(churn::guarded_attempt(rules, clients, client_id, now).1),
        Event::Sweep(_, _) => None,
    }
}

/// The verdicts on events, one after the other.
pub open spec fn run_verdicts(
    rules: ChurnRules,
    clients: Map<Seq<char>, History>,
    events: Seq<Event>,
) -> Seq<Option<Verdict>>
    decreases events.len(),
{
    if events.len() == 0 {
        Seq::empty()
    } else {
        seq![event_verdict(rules, clients, events[0])] + run_verdicts(
            rules,
            after_event(rules, clients, events[0]),
            events.skip(1),
        )
    }
}

/// Whether the events come in the order of time, none before `from`.
pub open spec fn in_time(from: u128, events: Seq<Event>) -> bool
    decreases events.len(),
{
    events.len() == 0 || from <= time_of(events[0]) && in_time(
        time_of(events[0]),
        events.skip(1),
    )
}

/// A history that counts for nothing from a time on.
spec fn spent(rules: ChurnRules, h: History, from: u128) -> bool {
    match h.until {
        Some(until) => until <= from,
        None => forall|i: int|
            0 <= i < h.connects.len() ==> churn::since(from, #[trigger] h.connects[i]) >= rules.window,
    }
}

/// Histories that differ only in what counts for nothing from a time on.
spec fn as_good_as(
    rules: ChurnRules,
    a: Map<Seq<char>, History>,
    b: Map<Seq<char>, History>,
    from: u128,
) -> bool {
    forall|k: Seq<char>|
        #![trigger churn::history_of(a, k)]
        #![trigger churn::history_of(b, k)]
        churn::history_of(a, k) == churn::history_of(b, k) || churn::history_of(b, k) == churn::no_history() && spent(
            rules,
            churn::history_of(a, k),
            from,
        )
}

proof fn lemma_all_spent(connects: Seq<u128>, now: u128, window: u128)
    requires
        forall|i: int| 0 <= i < connects.len() ==> churn::since(now, #[trigger] connects[i]) >= window,
    ensures
        churn::recent(connects, now, window) == Seq::<u128>::empty(),
    decreases connects.len(),
{
    if connects.len() > 0 {
        let rest = connects.skip(1);
        assert forall|i: int| 0 <= i < rest.len() implies churn::since(now, #[trigger] rest[i]) >= window by {
            assert(churn::since(now, connects[i + 1]) >= window);
        }
        assert(churn::since(now, connects[0]) >= window);
        lemma_all_spent(rest, now, window);
    } else {
        assert(connects =~= Seq::<u128>::empty());
    }
}

proof fn lemma_spent(rules: ChurnRules, h: History, from: u128, now: u128)
    requires
        from <= now,
        spent(rules, h, from),
    ensures
        spent(rules, h, now),
        churn::attempt(rules, h, now) == churn::attempt(rules, churn::no_history(), now),
{
    assert(churn::recent(Seq::<u128>::empty(), now, rules.window) =~= Seq::<u128>::empty());
    if h.until is None {
        assert forall|i: int| 0 <= i < h.connects.len() implies churn::since(now, #[trigger] h.connects[i])
            >= rules.window by {
            assert(churn::since(from, h.connects[i]) >= rules.window);
        }
        lemma_all_spent(h.connects, now, rules.window);
    }
}

proof fn lemma_event_keeps(
    rules: ChurnRules,
    a: Map<Seq<char>, History>,
    b: Map<Seq<char>, History>,
    from: u128,
    e: Event,
)
    requires
        as_good_as(rules, a, b, from),
        from <= time_of(e),
    ensures
        event_verdict(rules, a, e) == event_verdict(rules, b, e),
        as_good_as(rules, after_event(rules, a, e), after_event(rules, b, e), time_of(e)),
{
    let (a2, b2) = (after_event(rules, a, e), after_event(rules, b, e));
    match e {
        Event::Attempt(client_id, now) => {
            if churn::history_of(a, client_id) != churn::history_of(b, client_id) {
                lemma_spent(rules, churn::history_of(a, client_id), from, now);
            }
        },
        Event::Sweep(_, _) => {},
    }
    assert forall|k: Seq<char>|
        #![trigger churn::history_of(a2, k)]
        #![trigger churn::history_of(b2, k)]
        churn::history_of(a2, k) == churn::history_of(b2, k) || churn::history_of(b2, k) == churn::no_history() && spent(
            rules,
            churn::history_of(a2, k),
            time_of(e),
        ) by {
        let (ha, hb) = (churn::history_of(a, k), churn::history_of(b, k));
        if ha != hb {
            lemma_spent(rules, ha, from, time_of(e));
        }
        match e {
            Event::Attempt(client_id, now) => {},
            Event::Sweep(now, idle_after) => {
                assert(!churn::survives(churn::no_history(), now, idle_after));
                assert(churn::history_of(a2, k) == (if churn::survives(ha, now, idle_after) {
                    ha
                } else {
                    churn::no_history()
                }));
                assert(churn::history_of(b2, k) == (if churn::survives(hb, now, idle_after) {
                    hb
                } else {
                    churn::no_history()
                }));
            },
        }
    }
}

proof fn lemma_run_keeps(
    rules: ChurnRules,
    a: Map<Seq<char>, History>,
    b: Map<Seq<char>, History>,
    from: u128,
    events: Seq<Event>,
)
    requires
        as_good_as(rules, a, b, from),
        in_time(from, events),
    ensures
        run_verdicts(rules, a, events) == run_verdicts(rules, b, events),
    decreases events.len(),
{
    if events.len() > 0 {
        lemma_event_keeps(rules, a, b, from, events[0]);
        lemma_run_keeps(
            rules,
            after_event(rules, a, events[0]),
            after_event(rules, b, events[0]),
            time_of(events[0]),
            events.skip(1),
        );
    }
}

/// A sweep whose idle time is no shorter than the window changes no verdict of any later
/// run of attempts and sweeps, of whatever clients.
pub proof fn law_sweep_changes_no_later_run(
    rules: ChurnRules,
    clients: Map<Seq<char>, History>,
    swept_at: u128,
    idle_after: u128,
    events: Seq<Event>,
)
    requires
        rules.window <= idle_after,
        forall|k: Seq<char>| #[trigger] clients.dom().contains(k) ==> in_order(clients[k]),
        in_time(swept_at, events),
    ensures
        run_verdicts(rules, churn::swept(clients, swept_at, idle_after), events) == run_verdicts(
            rules,
            clients,
            events,
        ),
{
    let less = churn::swept(clients, swept_at, idle_after);
    assert forall|k: Seq<char>|
        #![trigger churn::history_of(clients, k)]
        #![trigger churn::history_of(less, k)]
        churn::history_of(clients, k) == churn::history_of(less, k) || churn::history_of(less, k) == churn::no_history()
            && spent(rules, churn::history_of(clients, k), swept_at) by {
        let h = churn::history_of(clients, k);
        if clients.dom().contains(k) && !churn::survives(h, swept_at, idle_after) && h.until is None {
            assert(in_order(h));
            assert forall|i: int| 0 <= i < h.connects.len() implies churn::since(
                swept_at,
                #[trigger] h.connects[i],
            ) >= rules.window by {
                assert(h.connects[i] <= h.connects[h.connects.len() - 1]);
            }
        }
    }
    lemma_run_keeps(rules, clients, less, swept_at, events);
}

/// The histories of a guard after events, from the first on.
pub open spec fn histories(rules: ChurnRules, events: Seq<Event>) -> Map<Seq<char>, History>
    decreases events.len(),
{
    if events.len() == 0 {
        Map::empty()
    } else {
        after_event(rules, histories(rules, events.drop_last()), events.last())
    }
}

/// The times of the attempts of one client.
pub open spec fn attempts_of(events: Seq<Event>, client_id: Seq<char>) -> Seq<u128>
    decreases events.len(),
{
    if events.len() == 0 {
        Seq::empty()
    } else {
        let earlier = attempts_of(events.drop_last(), client_id);
        match events.last() {
            Event::Attempt(id, now) => if id == client_id {
                earlier.push(now)
            } else {
                earlier
            },
            Event::Sweep(_, _) => earlier,
        }
    }
}

/// Whether the events of a guard come in the order of time, and no sweep is for less than
/// the window.
pub open spec fn orderly(rules: ChurnRules, events: Seq<Event>) -> bool {
    &&& forall|i: int, j: int|
        0 <= i <= j < events.len() ==> time_of(#[trigger] events[i]) <= time_of(#[trigger] events[j])
    &&& forall|i: int|
        0 <= i < events.len() ==> ((#[trigger] events[i]) matches Event::Sweep(_, idle_after)
            ==> rules.window <= idle_after)
}

/// The history of a client whose attempts come in order is in order, up to the last.
proof fn lemma_history_in_order(rules: ChurnRules, times: Seq<u128>, last: u128)
    requires
        forall|i: int, j: int|
            0 <= i <= j < times.len() ==> #[trigger] times[i] <= #[trigger] times[j],
        forall|i: int| 0 <= i < times.len() ==> #[trigger] times[i] <= last,
    ensures
        in_order(history(rules, times)),
        history(rules, times).connects.len() > 0 ==> history(rules, times).connects.last() <= last,
    decreases times.len(),
{
    if times.len() > 0 {
        let earlier = times.drop_last();
        let now = times.last();
        assert forall|i: int, j: int| 0 <= i <= j < earlier.len() implies #[trigger] earlier[i]
            <= #[trigger] earlier[j] by {
            assert(times[i] <= times[j]);
        }
        assert forall|i: int| 0 <= i < earlier.len() implies #[trigger] earlier[i] <= now by {
            assert(times[i] <= times[times.len() - 1]);
        }
        lemma_history_in_order(rules, earlier, now);
        law_histories_stay_in_order(rules, history(rules, earlier), now);
        assert(times[times.len() - 1] <= last);
    }
}

proof fn lemma_attempts_in_order(events: Seq<Event>, client_id: Seq<char>, last: u128)
    requires
        forall|i: int, j: int|
            0 <= i <= j < events.len() ==> time_of(#[trigger] events[i]) <= time_of(
                #[trigger] events[j],
            ),
        forall|i: int| 0 <= i < events.len() ==> time_of(#[trigger] events[i]) <= last,
    ensures
        ({
            let times = attempts_of(events, client_id);
            &&& forall|i: int, j: int|
                0 <= i <= j < times.len() ==> #[trigger] times[i] <= #[trigger] times[j]
            &&& forall|i: int| 0 <= i < times.len() ==> #[trigger] times[i] <= last
        }),
    decreases events.len(),
{
    if events.len() > 0 {
        let earlier = events.drop_last();
        let now = time_of(events.last());
        assert forall|i: int, j: int| 0 <= i <= j < earlier.len() implies time_of(
            #[trigger] earlier[i],
        ) <= time_of(#[trigger] earlier[j]) by {
            assert(time_of(events[i]) <= time_of(events[j]));
        }
        assert forall|i: int| 0 <= i < earlier.len() implies time_of(#[trigger] earlier[i])
            <= now by {
            assert(time_of(events[i]) <= time_of(events[events.len() - 1]));
        }
        lemma_attempts_in_order(earlier, client_id, now);
        assert(time_of(events[events.len() - 1]) <= last);
        let before = attempts_of(earlier, client_id);
        let times = attempts_of(events, client_id);
        assert(times == before || times == before.push(now));
        assert forall|i: int, j: int| 0 <= i <= j < times.len() implies #[trigger] times[i]
            <= #[trigger] times[j] by {
            if i < before.len() {
                assert(times[i] == before[i]);
            }
            if j < before.len() {
                assert(times[j] == before[j]);
            }
        }
        assert forall|i: int| 0 <= i < times.len() implies #[trigger] times[i] <= last by {
            if i < before.len() {
                assert(times[i] == before[i]);
            }
        }
    }
}

/// What a guard keeps of a client is the history of its attempts, or what is left of one
/// that counts for nothing any more.
proof fn lemma_guard_history(rules: ChurnRules, events: Seq<Event>, client_id: Seq<char>)
    requires
        rules.max_reconnects > 0,
        orderly(rules, events),
    ensures
        ({
            let kept = churn::history_of(histories(rules, events), client_id);
            let h = history(rules, attempts_of(events, client_id));
            kept == h || kept == churn::no_history() && events.len() > 0 && spent(
                rules,
                h,
                time_of(events.last()),
            )
        }),
    decreases events.len(),
{
    if events.len() > 0 {
        let earlier = events.drop_last();
        let e = events.last();
        let now = time_of(e);
        assert forall|i: int, j: int| 0 <= i <= j < earlier.len() implies time_of(
            #[trigger] earlier[i],
        ) <= time_of(#[trigger] earlier[j]) by {
            assert(time_of(events[i]) <= time_of(events[j]));
        }
        assert forall|i: int| 0 <= i < earlier.len() implies ((#[trigger] earlier[i]) matches Event::Sweep(
            _,
            idle_after,
        ) ==> rules.window <= idle_after) by {
            assert(events[i] == earlier[i]);
        }
        lemma_guard_history(rules, earlier, client_id);
        let times = attempts_of(earlier, client_id);
        let h = history(rules, times);
        let kept = churn::history_of(histories(rules, earlier), client_id);
        if kept != h {
            assert(time_of(events[events.len() - 2]) <= time_of(events[events.len() - 1]));
            lemma_spent(rules, h, time_of(earlier.last()), now);
        }
        match e {
            Event::Attempt(id, _) => {
                assert(attempts_of(events, client_id).drop_last() =~= times || id != client_id);
            },
            Event::Sweep(_, idle_after) => {
                assert(events[events.len() - 1] == e);
                assert forall|i: int| 0 <= i < earlier.len() implies time_of(#[trigger] earlier[i])
                    <= now by {
                    assert(time_of(events[i]) <= time_of(events[events.len() - 1]));
                }
                lemma_attempts_in_order(earlier, client_id, now);
                lemma_history_in_order(rules, times, now);
                if !churn::survives(h, now, idle_after) && h.until is None {
                    assert forall|i: int| 0 <= i < h.connects.len() implies churn::since(
                        now,
                        #[trigger] h.connects[i],
                    ) >= rules.window by {
                        assert(h.connects[i] <= h.connects[h.connects.len() - 1]);
                    }
                }
            },
        }
    }
}

/// A guard judges every client by the times of its own attempts alone, whatever other
/// clients do and however often it is swept, as long as no sweep is for less than the
/// window and the clock does not go back.
pub proof fn law_guard_judges_by_the_times(
    rules: ChurnRules,
    events: Seq<Event>,
    client_id: Seq<char>,
    now: u128,
)
    requires
        rules.max_reconnects > 0,
        orderly(rules, events.push(Event::Attempt(client_id, now))),
    ensures
        churn::guarded_attempt(rules, histories(rules, events), client_id, now).1 == verdicts(
            rules,
            attempts_of(events, client_id).push(now),
        ).last(),
{
    let all = events.push(Event::Attempt(client_id, now));
    assert forall|i: int, j: int| 0 <= i <= j < events.len() implies time_of(#[trigger] events[i])
        <= time_of(#[trigger] events[j]) by {
        assert(time_of(all[i]) <= time_of(all[j]));
    }
    assert forall|i: int| 0 <= i < events.len() implies ((#[trigger] events[i]) matches Event::Sweep(
        _,
        idle_after,
    ) ==> rules.window <= idle_after) by {
        assert(all[i] == events[i]);
    }
    lemma_guard_history(rules, events, client_id);
    let times = attempts_of(events, client_id);
    assert(times.push(now).drop_last() =~= times);
    let kept = churn::history_of(histories(rules, events), client_id);
    if kept != history(rules, times) {
        assert(time_of(all[all.len() - 2]) <= time_of(all[all.len() - 1]));
        lemma_spent(rules, history(rules, times), time_of(events.last()), now);
    }
}

} // verus!
