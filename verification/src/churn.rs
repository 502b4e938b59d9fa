//! Reconnect-churn quarantine: a client id that reconnects more than a number of
//! times within a rolling window is refused for a cooldown.
//!
//! Admission control sheds an aggregate storm without caring who a client is; this
//! catches the one client that flaps while the rest of the mesh is quiet. Each
//! client id is judged by its own history on this node alone.

use crate::clock::{Stopwatch, MAX_NANOS};
use crate::prefix;
use crate::strmap::StrMap;
use crate::text;
use vstd::prelude::*;
use vstd::string::*;

verus! {

#[derive(Debug, Clone, Copy, PartialEq, Eq, Structural)]
pub enum Verdict {
    Admit,
    Quarantined,
}

/// The connects of one client id, oldest first, and the end of its quarantine.
struct ClientHistory {
    connects: Vec<u128>,
    quarantined_until: Option<u128>,
}

/// A client's history as plain values; times are nanoseconds.
pub struct History {
    pub connects: Seq<u128>,
    pub until: Option<u128>,
}

impl View for ClientHistory {
    type V = History;

    closed spec fn view(&self) -> History {
        History { connects: self.connects@, until: self.quarantined_until }
    }
}

/// The settings of a guard; durations are nanoseconds.
pub struct ChurnRules {
    pub max_reconnects: u32,
    pub window: u128,
    pub cooldown: u128,
}

pub const NANOS_PER_SEC: u128 = 1_000_000_000;

pub open spec fn at_least_one(secs: u64) -> int {
    if secs == 0 {
        1
    } else {
        secs as int
    }
}

/// The settings that a configuration asks for; no duration is shorter than a second.
pub open spec fn churn_rules(
    max_reconnects: u32,
    window_secs: u64,
    cooldown_secs: u64,
) -> ChurnRules {
    ChurnRules {
        max_reconnects,
        window: (at_least_one(window_secs) * NANOS_PER_SEC) as u128,
        cooldown: (at_least_one(cooldown_secs) * NANOS_PER_SEC) as u128,
    }
}

/// The time from `then` to `now`; none where the clock has not passed `then`.
pub open spec fn since(now: u128, then: u128) -> int {
    if now >= then {
        now - then
    } else {
        0
    }
}

/// The connects that are still inside the window: those from before it leave, oldest
/// first.
pub open spec fn recent(connects: Seq<u128>, now: u128, window: u128) -> Seq<u128>
    decreases connects.len(),
{
    if connects.len() > 0 && since(now, connects[0]) >= window {
        recent(connects.skip(1), now, window)
    } else {
        connects
    }
}

/// No history at all.
pub open spec fn no_history() -> History {
    History { connects: Seq::empty(), until: None }
}

/// What a connect attempt at `now` does to a client's history, and its verdict.
pub open spec fn attempt(rules: ChurnRules, h: History, now: u128) -> (History, Verdict) {
    if h.until is Some && now < h.until->0 {
        (h, Verdict::Quarantined)
    } else {
        let kept = if h.until is Some {
            Seq::empty()
        } else {
            recent(h.connects, now, rules.window)
        };
        let connects = kept.push(now);
        if connects.len() > rules.max_reconnects {
            (
                History { connects, until: Some((now + rules.cooldown) as u128) },
                Verdict::Quarantined,
            )
        } else {
            (History { connects, until: None }, Verdict::Admit)
        }
    }
}

/// Whether a sweep at `now` keeps a history: a running quarantine, or a connect
/// within `idle_after`.
pub open spec fn survives(h: History, now: u128, idle_after: u128) -> bool {
    match h.until {
        Some(until) => now < until,
        None => h.connects.len() > 0 && since(now, h.connects.last()) < idle_after,
    }
}

/// The history of a client id, empty where none is kept.
pub open spec fn history_of(clients: Map<Seq<char>, History>, client_id: Seq<char>) -> History {
    if clients.dom().contains(client_id) {
        clients[client_id]
    } else {
        no_history()
    }
}

/// What an attempt of `client_id` at `now` does to all histories, and its verdict.
pub open spec fn guarded_attempt(
    rules: ChurnRules,
    clients: Map<Seq<char>, History>,
    client_id: Seq<char>,
    now: u128,
) -> (Map<Seq<char>, History>, Verdict) {
    if rules.max_reconnects == 0 {
        (clients, Verdict::Admit)
    } else {
        let (h, verdict) = attempt(rules, history_of(clients, client_id), now);
        (clients.insert(client_id, h), verdict)
    }
}

/// The histories that a sweep at `now` leaves.
pub open spec fn swept(
    clients: Map<Seq<char>, History>,
    now: u128,
    idle_after: u128,
) -> Map<Seq<char>, History> {
    Map::new(
        |k: Seq<char>| clients.dom().contains(k) && survives(clients[k], now, idle_after),
        |k: Seq<char>| clients[k],
    )
}

pub struct ChurnGuard {
    max_reconnects: u32,
    window: u128,
    cooldown: u128,
    clock: Stopwatch,
    clients: StrMap<ClientHistory>,
}

impl View for ChurnGuard {
    type V = Map<Seq<char>, History>;

    closed spec fn view(&self) -> Map<Seq<char>, History> {
        self.clients@.map_values(|h: ClientHistory| h@)
    }
}

impl ChurnGuard {
    pub closed spec fn wf(&self) -> bool {
        &&& self.clients.wf()
        &&& self.cooldown <= MAX_NANOS
    }

    pub closed spec fn rules(&self) -> ChurnRules {
        ChurnRules {
            max_reconnects: self.max_reconnects,
            window: self.window,
            cooldown: self.cooldown,
        }
    }

    /// The latest reading of the guard's own clock, in nanoseconds; 0 before the first.
    pub closed spec fn clock_reading(&self) -> u128 {
        self.clock.latest()
    }

    /// `max_reconnects = 0` disables churn quarantine entirely.
    pub fn new(max_reconnects: u32, window_secs: u64, cooldown_secs: u64) -> (r: Self)
        ensures
            r.wf(),
            r.rules() == churn_rules(max_reconnects, window_secs, cooldown_secs),
            r@ == Map::<Seq<char>, History>::empty(),
            r.clock_reading() == 0,
    {
        let window: u64 = if window_secs == 0 {
            1
        } else {
            window_secs
        };
        let cooldown: u64 = if cooldown_secs == 0 {
            1
        } else {
            cooldown_secs
        };
        let r = ChurnGuard {
            max_reconnects,
            window: window as u128 * NANOS_PER_SEC,
            cooldown: cooldown as u128 * NANOS_PER_SEC,
            clock: Stopwatch::start(),
            clients: StrMap::new(),
        };
        assert(r@ =~= Map::<Seq<char>, History>::empty());
        r
    }

    /// How many client ids have a history.
    pub fn len(&self) -> (n: usize)
        requires
            self.wf(),
        ensures
            n == self@.len(),
    {
        assert(self@.dom() =~= self.clients@.dom());
        self.clients.len()
    }

    /// The time by the guard's own clock, in nanoseconds: no earlier than at any reading
    /// before.
    pub fn clock_nanos(&mut self) -> (now: u128)
        ensures
            final(self).wf() == old(self).wf(),
            final(self).rules() == old(self).rules(),
            final(self)@ == old(self)@,
            old(self).clock_reading() <= now <= MAX_NANOS,
            final(self).clock_reading() == now,
    {
        let now = self.clock.nanos();
        assert(self@ == old(self)@);
        now
    }

    /// The rolling window in nanoseconds: the shortest idle time for a sweep that
    /// changes no decision.
    pub fn window_nanos(&self) -> (r: u128)
        ensures
            r == self.rules().window,
    {
        self.window
    }

    /// Records a connect attempt of `client_id` by the guard's own clock and says
    /// whether it is quarantined.
    pub fn admit_client(&mut self, client_id: &str) -> (r: Verdict)
        requires
            old(self).wf(),
        ensures
            final(self).wf(),
            final(self).rules() == old(self).rules(),
            old(self).rules().max_reconnects == 0 ==> r == Verdict::Admit && final(self)@ == old(
                self,
            )@,
            old(self).clock_reading() <= final(self).clock_reading() <= MAX_NANOS,
            (final(self)@, r) == guarded_attempt(
                old(self).rules(),
                old(self)@,
                client_id@,
                final(self).clock_reading(),
            ),
    {
        let now = self.clock_nanos();
        self.admit_client_at(client_id, now)
    }

    /// Records a connect attempt of `client_id` at `now` (nanoseconds) and says whether
    /// it is quarantined.
    pub fn admit_client_at(&mut self, client_id: &str, now: u128) -> (r: Verdict)
        requires
            old(self).wf(),
            now <= MAX_NANOS,
        ensures
            final(self).wf(),
            final(self).rules() == old(self).rules(),
            final(self).clock_reading() == old(self).clock_reading(),
            (final(self)@, r) == guarded_attempt(
                old(self).rules(),
                old(self)@,
                client_id@,
                now,
            ),
    {
        if self.max_reconnects == 0 {
            return Verdict::Admit;
        }
        let ghost before = self@;
        let h = match self.clients.remove(client_id) {
            Some(h) => h,
            None => ClientHistory { connects: Vec::new(), quarantined_until: None },
        };
        assert(h@.connects =~= history_of(before, client_id@).connects);
        let (next, verdict) = self.judge(h, now);
        let ghost next_view = next@;
        self.clients.insert(client_id.to_owned(), next);
        assert(self@ =~= before.insert(client_id@, next_view));
        verdict
    }

    /// One client's attempt.
    fn judge(&self, h: ClientHistory, now: u128) -> (r: (ClientHistory, Verdict))
        requires
            self.wf(),
            now <= MAX_NANOS,
        ensures
            (r.0@, r.1) == attempt(self.rules(), h@, now),
    {
        if let Some(until) = h.quarantined_until {
            if now < until {
                return (h, Verdict::Quarantined);
            }
        }
        let mut connects = match h.quarantined_until {
            Some(_) => Vec::new(),
            None => keep_recent(&h.connects, now, self.window),
        };
        connects.push(now);
        if connects.len() as u64 > self.max_reconnects as u64 {
            let until: u128 = now + self.cooldown;
            (
                ClientHistory { connects, quarantined_until: Some(until) },
                Verdict::Quarantined,
            )
        } else {
            (ClientHistory { connects, quarantined_until: None }, Verdict::Admit)
        }
    }

    /// Drops, by the guard's own clock, the history of clients that are neither
    /// quarantined nor have connected within `idle_after` milliseconds.
    pub fn sweep(&mut self, idle_after_millis: u64)
        requires
            old(self).wf(),
        ensures
            final(self).wf(),
            final(self).rules() == old(self).rules(),
            old(self).clock_reading() <= final(self).clock_reading() <= MAX_NANOS,
            final(self)@ == swept(
                old(self)@,
                final(self).clock_reading(),
                (idle_after_millis * 1_000_000) as u128,
            ),
    {
        let now = self.clock_nanos();
        self.sweep_at(now, idle_after_millis as u128 * 1_000_000);
    }

    /// Drops, as of `now`, the history of clients that are neither quarantined nor
    /// have connected within `idle_after`; both are nanoseconds.
    pub fn sweep_at(&mut self, now: u128, idle_after: u128)
        requires
            old(self).wf(),
        ensures
            final(self).wf(),
            final(self).rules() == old(self).rules(),
            final(self).clock_reading() == old(self).clock_reading(),
            final(self)@ == swept(old(self)@, now, idle_after),
    {
        let ghost before = self@;
        let n = self.clients.len();
        let mut gone: Vec<String> = Vec::new();
        let mut i: usize = 0;
        proof {
            self.clients.lemma_keys();
        }
        while i < n
            invariant
                self.clients.wf(),
                self@ == before,
                n == self.clients.keys().len(),
                i <= n,
                forall|k: Seq<char>| #[trigger]
                    text::texts(gone@).contains(k) <==> (self.clients.keys().take(i as int).contains(
                        k,
                    ) && before.dom().contains(k) && !survives(before[k], now, idle_after)),
            decreases n - i,
        {
            let (key, h) = self.clients.entry(i);
            let stays = match h.quarantined_until {
                Some(until) => now < until,
                None => h.connects.len() > 0 && elapsed(now, h.connects[h.connects.len() - 1])
                    < idle_after,
            };
            let ghost old_gone = text::texts(gone@);
            assert(stays == survives(before[key@], now, idle_after));
            if !stays {
                let name = key.clone();
                gone.push(name);
                proof {
                    assert(text::texts(gone@) =~= old_gone.push(key@));
                    prefix::lemma_push_contains(old_gone, key@);
                }
            }
            proof {
                let ks = self.clients.keys();
                prefix::lemma_take_next(ks, i as int);
                assert(before.dom().contains(key@));
                assert forall|k: Seq<char>| #[trigger] text::texts(gone@).contains(k) <==> (ks.take(
                    i + 1,
                ).contains(k) && before.dom().contains(k) && !survives(
                    before[k],
                    now,
                    idle_after,
                )) by {
                    assert(ks.take(i + 1).contains(k) == (ks.take(i as int).contains(k) || k
                        == key@));
                    assert(old_gone.contains(k) <==> (ks.take(i as int).contains(k)
                        && before.dom().contains(k) && !survives(before[k], now, idle_after)));
                }
            }
            i = i + 1;
        }
        proof {
            assert(self.clients.keys().take(n as int) =~= self.clients.keys());
            self.clients.lemma_keys();
        }
        let ghost full = self.clients@;
        self.clients.remove_all(&gone);
        assert(self@ =~= swept(before, now, idle_after)) by {
            assert forall|k: Seq<char>| #[trigger] self@.dom().contains(k) == swept(
                before,
                now,
                idle_after,
            ).dom().contains(k) by {
                assert(self@.dom().contains(k) == self.clients@.dom().contains(k));
                assert(before.dom().contains(k) == full.dom().contains(k));
            }
        }
    }
}

/// The time from `then` to `now`.
fn elapsed(now: u128, then: u128) -> (r: u128)
    ensures
        r == since(now, then),
{
    if now >= then {
        now - then
    } else {
        0
    }
}

/// The connects that are still inside the window.
fn keep_recent(connects: &Vec<u128>, now: u128, window: u128) -> (r: Vec<u128>)
    ensures
        r@ == recent(connects@, now, window),
{
    let mut i: usize = 0;
    assert(connects@.skip(0) =~= connects@);
    while i < connects.len() && elapsed(now, connects[i]) >= window
        invariant
            i <= connects@.len(),
            recent(connects@, now, window) == recent(connects@.skip(i as int), now, window),
        decreases connects.len() - i,
    {
        assert(connects@.skip(i as int).skip(1) =~= connects@.skip(i + 1));
        i = i + 1;
    }
    let mut kept: Vec<u128> = Vec::new();
    let ghost first = i;
    while i < connects.len()
        invariant
            first <= i <= connects@.len(),
            kept@ == connects@.subrange(first as int, i as int),
        decreases connects.len() - i,
    {
        kept.push(connects[i]);
        assert(connects@.subrange(first as int, i + 1) =~= connects@.subrange(
            first as int,
            i as int,
        ).push(connects@[i as int]));
        i = i + 1;
    }
    assert(connects@.subrange(first as int, i as int) =~= connects@.skip(first as int));
    kept
}

} // verus!
