//! Laws of a takeover, over any run of what can happen to the sessions of a node: a
//! connection that has lost its session can do nothing to the one that took it over.

use crate::packet::QoS;
use crate::registry::{self, RegistryRules, Sessions};
use crate::registry_laws;
use crate::session::{self, Session, Step, Sub};
use vstd::prelude::*;

verus! {

/// What can happen to the sessions of a node.
pub enum Event {
    /// A connection is attached: client id, identity, clean session, number, queue file.
    Attach(Seq<char>, Seq<char>, bool, u64, Option<Seq<u8>>),
    /// A connection is detached: session, epoch, clean session, time.
    Detach(u64, u64, bool, u128),
    /// A session is restored: client id, identity, queue file, time.
    Restore(Seq<char>, Seq<char>, Option<Seq<u8>>, u128),
    /// Expired sessions are dropped: how long they may be offline, time.
    Sweep(u128, u128),
    /// A session changes without a new connection: a delivery, a failed sending, a kick, a
    /// packet id, a subscription.
    Change(u64, Session),
}

/// Whether a session is the same one, with the same count of connections.
pub open spec fn same_connections(before: Session, after: Session) -> bool {
    after.client_id == before.client_id && after.epoch == before.epoch
}

/// Whether an event can happen: there is a number left for a new session and for a new
/// connection, and a change keeps to the session that it is for.
pub open spec fn possible(reg: Sessions, e: Event) -> bool {
    match e {
        Event::Attach(client_id, _, _, _, _) => reg.made < u64::MAX && (
        reg.clients.dom().contains(client_id) ==> reg.all[reg.clients[client_id]].epoch
            < u64::MAX),
        Event::Restore(_, _, _, _) => reg.made < u64::MAX,
        Event::Change(h, s) => reg.all.dom().contains(h) && same_connections(reg.all[h], s),
        _ => true,
    }
}

/// The sessions after an event.
pub open spec fn step(reg: Sessions, rules: RegistryRules, e: Event) -> Sessions {
    match e {
        Event::Attach(client_id, identity, clean, conn, file) => registry::attach_result(
            reg,
            rules,
            client_id,
            identity,
            clean,
            conn,
            file,
        ).0,
        Event::Detach(h, epoch, clean, now) => registry::detach_result(reg, h, epoch, clean, now),
        Event::Restore(client_id, identity, file, now) => registry::restore_result(
            reg,
            rules,
            client_id,
            identity,
            file,
            now,
        ).0,
        Event::Sweep(expiry, now) => registry::swept_sessions(reg, expiry, now),
        Event::Change(h, s) => registry::updated(reg, h, s),
    }
}

/// The sessions after events, one after the other.
pub open spec fn after(reg: Sessions, rules: RegistryRules, events: Seq<Event>) -> Sessions
    decreases events.len(),
{
    if events.len() == 0 {
        reg
    } else {
        after(step(reg, rules, events[0]), rules, events.skip(1))
    }
}

/// Whether events can happen one after the other.
pub open spec fn all_possible(reg: Sessions, rules: RegistryRules, events: Seq<Event>) -> bool
    decreases events.len(),
{
    events.len() == 0 || possible(reg, events[0]) && all_possible(
        step(reg, rules, events[0]),
        rules,
        events.skip(1),
    )
}

/// Only attaching counts as a connection: a delivery, a failed sending, a kick, a packet
/// id, a reason that is read and a subscription leave the count, and the client id, alone.
pub proof fn law_only_attaching_counts(
    s: Session,
    max_queue: nat,
    topic: Seq<char>,
    payload: Seq<u8>,
    qos: QoS,
    conn: u64,
    timed_out: bool,
    now: u128,
    reason: Seq<char>,
    pkid: u16,
    subs: Map<Seq<char>, Sub>,
)
    ensures
        same_connections(s, session::deliver_step(s, max_queue, topic, payload, qos).0),
        same_connections(s, session::send_failure(s, conn, timed_out, now)),
        same_connections(s, session::kicked(s, reason)),
        same_connections(s, Session { pkid, ..s }),
        same_connections(s, Session { kick_reason: None, ..s }),
        same_connections(s, Session { subs, ..s }),
        session::taken_over(s, s.identity, conn).epoch == s.epoch.wrapping_add(1),
{
}

/// Whatever happens, the sessions stay coherent, and no number of a session is used again.
pub proof fn law_sessions_stay_coherent(reg: Sessions, rules: RegistryRules, events: Seq<Event>)
    requires
        registry_laws::coherent(reg),
        all_possible(reg, rules, events),
    ensures
        registry_laws::coherent(after(reg, rules, events)),
        after(reg, rules, events).made >= reg.made,
    decreases events.len(),
{
    if events.len() > 0 {
        lemma_step_coherent(reg, rules, events[0]);
        law_sessions_stay_coherent(step(reg, rules, events[0]), rules, events.skip(1));
    }
}

proof fn lemma_step_coherent(reg: Sessions, rules: RegistryRules, e: Event)
    requires
        registry_laws::coherent(reg),
        possible(reg, e),
    ensures
        registry_laws::coherent(step(reg, rules, e)),
        step(reg, rules, e).made >= reg.made,
{
    let next = step(reg, rules, e);
    assert forall|c: Seq<char>| #[trigger] next.clients.dom().contains(c) implies next.all.dom().contains(
        next.clients[c],
    ) && next.all[next.clients[c]].client_id == c by {
        if reg.clients.dom().contains(c) {
            assert(reg.all.dom().contains(reg.clients[c]));
        }
        match e {
            Event::Attach(client_id, _, _, _, _) => {
                if reg.clients.dom().contains(client_id) {
                    assert(reg.all[reg.clients[client_id]].client_id == client_id);
                }
            },
            _ => {},
        }
    }
}

/// The session `h` of a client has had the connection `epoch`: while it is known, it is of
/// that client, and counts at least that connection.
spec fn had(reg: Sessions, client_id: Seq<char>, h: u64, epoch: u64) -> bool {
    &&& h < reg.made
    &&& reg.all.dom().contains(h) ==> reg.all[h].client_id == client_id && reg.all[h].epoch >= epoch
}

/// The connection `epoch` of the session `h` has lost: the session counts a later one, or
/// it is no client's session any more.
spec fn lost(reg: Sessions, h: u64, epoch: u64) -> bool {
    &&& h < reg.made
    &&& (reg.all.dom().contains(h) ==> reg.all[h].epoch > epoch) || (forall|c: Seq<char>| #[trigger]
        reg.clients.dom().contains(c) ==> reg.clients[c] != h)
}

proof fn lemma_had_stays(
    reg: Sessions,
    rules: RegistryRules,
    events: Seq<Event>,
    client_id: Seq<char>,
    h: u64,
    epoch: u64,
)
    requires
        registry_laws::coherent(reg),
        all_possible(reg, rules, events),
        had(reg, client_id, h, epoch),
    ensures
        had(after(reg, rules, events), client_id, h, epoch),
    decreases events.len(),
{
    if events.len() > 0 {
        lemma_step_coherent(reg, rules, events[0]);
        lemma_had_stays(
            step(reg, rules, events[0]),
            rules,
            events.skip(1),
            client_id,
            h,
            epoch,
        );
    }
}

proof fn lemma_lost_stays(
    reg: Sessions,
    rules: RegistryRules,
    events: Seq<Event>,
    h: u64,
    epoch: u64,
)
    requires
        registry_laws::coherent(reg),
        all_possible(reg, rules, events),
        lost(reg, h, epoch),
    ensures
        lost(after(reg, rules, events), h, epoch),
    decreases events.len(),
{
    if events.len() > 0 {
        lemma_step_coherent(reg, rules, events[0]);
        assert(lost(step(reg, rules, events[0]), h, epoch)) by {
            if forall|c: Seq<char>| #[trigger] reg.clients.dom().contains(c) ==> reg.clients[c] != h {
                let next = step(reg, rules, events[0]);
                assert forall|c: Seq<char>| #[trigger]
                    next.clients.dom().contains(c) implies next.clients[c] != h by {
                    if reg.clients.dom().contains(c) {
                        assert(reg.clients[c] != h);
                    }
                }
            }
        }
        lemma_lost_stays(step(reg, rules, events[0]), rules, events.skip(1), h, epoch);
    }
}

/// A connection that a later one of the same client id has replaced, by taking its session
/// over or by starting anew, whatever happened between the two and whatever has happened
/// since, changes nothing when it detaches at last: every client keeps the session that it
/// has, as it is.
pub proof fn law_loser_never_harms_a_session(
    reg: Sessions,
    rules: RegistryRules,
    client_id: Seq<char>,
    first: (Seq<char>, bool, u64, Option<Seq<u8>>),
    between: Seq<Event>,
    second: (Seq<char>, bool, u64, Option<Seq<u8>>),
    since: Seq<Event>,
    clean: bool,
    now: u128,
)
    requires
        registry_laws::coherent(reg),
        possible(reg, Event::Attach(client_id, first.0, first.1, first.2, first.3)),
        ({
            let (reg1, _) = registry::attach_result(
                reg,
                rules,
                client_id,
                first.0,
                first.1,
                first.2,
                first.3,
            );
            let (reg2, _) = registry::attach_result(
                after(reg1, rules, between),
                rules,
                client_id,
                second.0,
                second.1,
                second.2,
                second.3,
            );
            &&& all_possible(reg1, rules, between)
            &&& possible(
                after(reg1, rules, between),
                Event::Attach(client_id, second.0, second.1, second.2, second.3),
            )
            &&& all_possible(reg2, rules, since)
        }),
    ensures
        ({
            let (reg1, out1) = registry::attach_result(
                reg,
                rules,
                client_id,
                first.0,
                first.1,
                first.2,
                first.3,
            );
            let (reg2, _) = registry::attach_result(
                after(reg1, rules, between),
                rules,
                client_id,
                second.0,
                second.1,
                second.2,
                second.3,
            );
            let reg3 = after(reg2, rules, since);
            let end = registry::detach_result(reg3, out1.session, out1.epoch, clean, now);
            &&& end.clients == reg3.clients
            &&& forall|c: Seq<char>| #[trigger]
                reg3.clients.dom().contains(c) ==> end.all.contains_pair(
                    reg3.clients[c],
                    reg3.all[reg3.clients[c]],
                )
        }),
{
    let e1 = Event::Attach(client_id, first.0, first.1, first.2, first.3);
    let e2 = Event::Attach(client_id, second.0, second.1, second.2, second.3);
    let (reg1, out1) = registry::attach_result(
        reg,
        rules,
        client_id,
        first.0,
        first.1,
        first.2,
        first.3,
    );
    let middle = after(reg1, rules, between);
    let (reg2, _) = registry::attach_result(
        middle,
        rules,
        client_id,
        second.0,
        second.1,
        second.2,
        second.3,
    );
    let (h, epoch) = (out1.session, out1.epoch);
    lemma_step_coherent(reg, rules, e1);
    if reg.clients.dom().contains(client_id) {
        assert(reg.all.dom().contains(reg.clients[client_id]));
    }
    assert(had(reg1, client_id, h, epoch));
    lemma_had_stays(reg1, rules, between, client_id, h, epoch);
    law_sessions_stay_coherent(reg1, rules, between);
    lemma_step_coherent(middle, rules, e2);
    assert(lost(reg2, h, epoch)) by {
        if !(middle.clients.dom().contains(client_id) && middle.clients[client_id] == h
            && !second.1) {
            assert forall|c: Seq<char>| #[trigger]
                reg2.clients.dom().contains(c) implies reg2.clients[c] != h by {
                if middle.clients.dom().contains(c) {
                    assert(middle.all[middle.clients[c]].client_id == c);
                }
            }
        }
    }
    lemma_lost_stays(reg2, rules, since, h, epoch);
    law_sessions_stay_coherent(reg2, rules, since);
    let reg3 = after(reg2, rules, since);
    let end = registry::detach_result(reg3, h, epoch, clean, now);
    assert(!(reg3.all.dom().contains(h) && reg3.all[h].epoch == epoch && registry::registered(
        reg3,
        h,
    )));
    assert forall|c: Seq<char>| #[trigger] reg3.clients.dom().contains(c) implies end.all.contains_pair(
        reg3.clients[c],
        reg3.all[reg3.clients[c]],
    ) by {
        assert(reg3.all.dom().contains(reg3.clients[c]));
    }
}

/// The winner of a takeover stays the winner: after the loser has detached, the client id
/// is registered to the winner's session, which is online, delivers to the winner's
/// connection, and is the one that the next persistent connect finds.
pub proof fn law_winner_of_a_takeover_stays(
    reg: Sessions,
    rules: RegistryRules,
    client_id: Seq<char>,
    first: (Seq<char>, bool, u64, Option<Seq<u8>>),
    between: Seq<Event>,
    second: (Seq<char>, bool, u64, Option<Seq<u8>>),
    clean: bool,
    now: u128,
    topic: Seq<char>,
    payload: Seq<u8>,
    qos: QoS,
    third: (Seq<char>, u64, Option<Seq<u8>>),
)
    requires
        registry_laws::coherent(reg),
        possible(reg, Event::Attach(client_id, first.0, first.1, first.2, first.3)),
        ({
            let (reg1, _) = registry::attach_result(
                reg,
                rules,
                client_id,
                first.0,
                first.1,
                first.2,
                first.3,
            );
            all_possible(reg1, rules, between) && possible(
                after(reg1, rules, between),
                Event::Attach(client_id, second.0, second.1, second.2, second.3),
            )
        }),
    ensures
        ({
            let (reg1, out1) = registry::attach_result(
                reg,
                rules,
                client_id,
                first.0,
                first.1,
                first.2,
                first.3,
            );
            let (reg2, out2) = registry::attach_result(
                after(reg1, rules, between),
                rules,
                client_id,
                second.0,
                second.1,
                second.2,
                second.3,
            );
            let end = registry::detach_result(reg2, out1.session, out1.epoch, clean, now);
            let winner = end.all[out2.session];
            let (_, found) = registry::attach_result(
                end,
                rules,
                client_id,
                third.0,
                false,
                third.1,
                third.2,
            );
            &&& end.clients.contains_pair(client_id, out2.session)
            &&& end.all.contains_pair(out2.session, reg2.all[out2.session])
            &&& winner.sink == Some(second.2)
            &&& winner.epoch == out2.epoch
            &&& session::deliver_step(
                winner,
                rules.max_queue as nat,
                topic,
                payload,
                qos,
            ).1 matches Step::Send(conn, _) && conn == second.2
            &&& found.session == out2.session
            &&& found.session_present
        }),
{
    let (reg1, _) = registry::attach_result(
        reg,
        rules,
        client_id,
        first.0,
        first.1,
        first.2,
        first.3,
    );
    let middle = after(reg1, rules, between);
    let none = Seq::<Event>::empty();
    law_loser_never_harms_a_session(
        reg,
        rules,
        client_id,
        first,
        between,
        second,
        none,
        clean,
        now,
    );
    lemma_step_coherent(
        reg,
        rules,
        Event::Attach(client_id, first.0, first.1, first.2, first.3),
    );
    law_sessions_stay_coherent(reg1, rules, between);
    let (reg2, out2) = registry::attach_result(
        middle,
        rules,
        client_id,
        second.0,
        second.1,
        second.2,
        second.3,
    );
    assert(after(reg2, rules, none) == reg2);
    assert(reg2.clients.dom().contains(client_id));
}

} // verus!
