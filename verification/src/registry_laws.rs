//! Laws of the session registry: who wins a takeover, what survives a disconnect, and
//! what a clean session leaves behind.

use crate::codec;
use crate::durable;
use crate::packet::QoS;
use crate::registry::{self, RegistryRules, Sessions};
use crate::session::{self, Session, Sub};
use vstd::prelude::*;

verus! {

/// Sessions as a registry keeps them: every client id has a known session that carries
/// that client id.
pub open spec fn coherent(reg: Sessions) -> bool {
    &&& forall|h: u64| #[trigger] reg.all.dom().contains(h) ==> h < reg.made
    &&& forall|c: Seq<char>| #[trigger]
        reg.clients.dom().contains(c) ==> reg.all.dom().contains(reg.clients[c])
            && reg.all[reg.clients[c]].client_id == c
}

/// Attaching keeps the sessions coherent, and the client id is then known by the session
/// that was handed out.
pub proof fn law_attach_keeps_coherence(
    reg: Sessions,
    rules: RegistryRules,
    client_id: Seq<char>,
    identity: Seq<char>,
    clean: bool,
    conn: u64,
    file: Option<Seq<u8>>,
)
    requires
        coherent(reg),
        reg.made < u64::MAX,
    ensures
        ({
            let (next, out) = registry::attach_result(
                reg,
                rules,
                client_id,
                identity,
                clean,
                conn,
                file,
            );
            &&& coherent(next)
            &&& next.clients.dom().contains(client_id)
            &&& next.clients[client_id] == out.session
            &&& next.all[out.session].sink == Some(conn)
            &&& next.all[out.session].epoch == out.epoch
        }),
{
    let (next, out) = registry::attach_result(reg, rules, client_id, identity, clean, conn, file);
    assert forall|c: Seq<char>| #[trigger] next.clients.dom().contains(c) implies next.all.dom().contains(
        next.clients[c],
    ) && next.all[next.clients[c]].client_id == c by {
        if c != client_id {
            assert(reg.clients.dom().contains(c));
        }
    }
}

/// Whether a client can have this queue file: only sessions that are kept in files have
/// one.
pub open spec fn file_fits(
    reg: Sessions,
    rules: RegistryRules,
    client_id: Seq<char>,
    file: Option<Seq<u8>>,
) -> bool {
    file is Some ==> rules.durable && (reg.clients.dom().contains(client_id)
        ==> reg.all[reg.clients[client_id]].durable)
}

/// The queue file that is left after an attach.
pub open spec fn file_left(out: registry::Attached, file: Option<Seq<u8>>) -> Option<Seq<u8>> {
    if out.discard_queue {
        None
    } else {
        file
    }
}

/// What attaching comes to for any client (MQTT-3.2.2-2): the session is present exactly
/// where the client asks to resume and state was stored, in memory or in a file. A client
/// that starts clean gets no backlog; one that resumes gets what was queued for it, in
/// order, once: the queue is then empty, no queue file is left, and a second attach finds
/// the same session without a backlog.
pub proof fn law_attach_outcome(
    reg: Sessions,
    rules: RegistryRules,
    client_id: Seq<char>,
    identity: Seq<char>,
    clean: bool,
    conn: u64,
    file: Option<Seq<u8>>,
    next_identity: Seq<char>,
    next_conn: u64,
)
    requires
        coherent(reg),
        reg.made < u64::MAX,
        file_fits(reg, rules, client_id, file),
    ensures
        ({
            let known = reg.clients.dom().contains(client_id);
            let stored = known || rules.durable && file is Some;
            let (next, out) = registry::attach_result(
                reg,
                rules,
                client_id,
                identity,
                clean,
                conn,
                file,
            );
            let left = file_left(out, file);
            let (_, again) = registry::attach_result(
                next,
                rules,
                client_id,
                next_identity,
                false,
                next_conn,
                left,
            );
            &&& out.session_present == (!clean && stored)
            &&& out.backlog == (if clean {
                Seq::empty()
            } else if known {
                reg.all[reg.clients[client_id]].queue
            } else {
                registry::file_queue(file, rules.max_queue as nat)
            })
            &&& next.clients.contains_pair(client_id, out.session)
            &&& next.all[out.session].queue.len() == 0
            &&& left is None
            &&& file_fits(next, rules, client_id, left)
            &&& again.session == out.session
            &&& again.session_present
            &&& again.backlog.len() == 0
        }),
{
}

/// Reconnecting takes the session over: the previous connection is the one to be kicked,
/// and when it then detaches, by the epoch that it was given, nothing changes.
pub proof fn law_loser_cannot_detach_winner(
    reg: Sessions,
    rules: RegistryRules,
    client_id: Seq<char>,
    identity: Seq<char>,
    conn: u64,
    file: Option<Seq<u8>>,
    clean: bool,
    now: u128,
)
    requires
        coherent(reg),
        reg.clients.dom().contains(client_id),
    ensures
        ({
            let h = reg.clients[client_id];
            let (next, out) = registry::attach_result(
                reg,
                rules,
                client_id,
                identity,
                false,
                conn,
                file,
            );
            &&& out.session == h
            &&& out.session_present
            &&& out.kicked == reg.all[h].kick
            &&& registry::detach_result(next, h, reg.all[h].epoch, clean, now) == next
        }),
{
}

/// A clean reconnect replaces the session: the previous connection, when it detaches,
/// leaves the new session and its client id alone, and the replaced session is gone.
pub proof fn law_replaced_session_cannot_remove_its_successor(
    reg: Sessions,
    rules: RegistryRules,
    client_id: Seq<char>,
    identity: Seq<char>,
    conn: u64,
    file: Option<Seq<u8>>,
    epoch: u64,
    clean: bool,
    now: u128,
)
    requires
        coherent(reg),
        reg.made < u64::MAX,
        reg.clients.dom().contains(client_id),
        reg.all[reg.clients[client_id]].epoch == epoch,
    ensures
        ({
            let h = reg.clients[client_id];
            let (next, out) = registry::attach_result(
                reg,
                rules,
                client_id,
                identity,
                true,
                conn,
                file,
            );
            let end = registry::detach_result(next, h, epoch, clean, now);
            &&& out.session != h
            &&& end.clients == next.clients
            &&& end.all.dom().contains(out.session)
            &&& end.all[out.session] == next.all[out.session]
            &&& !end.all.dom().contains(h)
        }),
{
    let h = reg.clients[client_id];
    assert(h < reg.made);
}

/// A clean session leaves nothing behind when its connection ends.
pub proof fn law_clean_session_leaves_nothing(
    reg: Sessions,
    rules: RegistryRules,
    client_id: Seq<char>,
    identity: Seq<char>,
    conn: u64,
    file: Option<Seq<u8>>,
    now: u128,
)
    requires
        coherent(reg),
        reg.made < u64::MAX,
    ensures
        ({
            let (next, out) = registry::attach_result(
                reg,
                rules,
                client_id,
                identity,
                true,
                conn,
                file,
            );
            let end = registry::detach_result(next, out.session, out.epoch, true, now);
            &&& !out.session_present
            &&& out.backlog.len() == 0
            &&& !end.clients.dom().contains(client_id)
            &&& !end.all.dom().contains(out.session)
        }),
{
}

/// A persistent session survives its connection: its subscriptions and its queue stay,
/// and the next persistent connect resumes it.
pub proof fn law_persistent_session_is_resumed(
    reg: Sessions,
    rules: RegistryRules,
    client_id: Seq<char>,
    identity: Seq<char>,
    conn: u64,
    now: u128,
    file: Option<Seq<u8>>,
)
    requires
        coherent(reg),
        reg.clients.dom().contains(client_id),
    ensures
        ({
            let h = reg.clients[client_id];
            let s = reg.all[h];
            let offline = registry::detach_result(reg, h, s.epoch, false, now);
            let (next, out) = registry::attach_result(
                offline,
                rules,
                client_id,
                identity,
                false,
                conn,
                file,
            );
            &&& offline.clients == reg.clients
            &&& offline.all[h].sink is None
            &&& offline.all[h].subs == s.subs
            &&& offline.all[h].queue == s.queue
            &&& out.session == h
            &&& out.session_present
            &&& out.backlog == s.queue
            &&& next.all[h].subs == s.subs
        }),
{
}

/// What is sent to a persistent session above QoS 0 while its client is offline is handed
/// over when the client comes back: the newest messages up to the limit of the queue, in
/// the order in which they came, after those that were queued before; and it is handed
/// over once.
pub proof fn law_offline_messages_are_handed_over(
    reg: Sessions,
    rules: RegistryRules,
    client_id: Seq<char>,
    identity: Seq<char>,
    list: Seq<(Seq<char>, Seq<u8>)>,
    qos: QoS,
    conn: u64,
    other: u64,
    now: u128,
    file: Option<Seq<u8>>,
)
    requires
        coherent(reg),
        reg.clients.dom().contains(client_id),
        reg.all[reg.clients[client_id]].queue.len() <= rules.max_queue,
        rules.max_queue > 0,
        qos != QoS::AtMostOnce,
    ensures
        ({
            let h = reg.clients[client_id];
            let s = reg.all[h];
            let offline = registry::detach_result(reg, h, s.epoch, false, now);
            let full = registry::updated(
                offline,
                h,
                session::after_deliveries(offline.all[h], rules.max_queue as nat, list, qos),
            );
            let (next, out) = registry::attach_result(
                full,
                rules,
                client_id,
                identity,
                false,
                conn,
                file,
            );
            let (_, again) = registry::attach_result(
                next,
                rules,
                client_id,
                identity,
                false,
                other,
                file,
            );
            &&& out.session == h
            &&& out.session_present
            &&& out.backlog == session::newest(s.queue + list, rules.max_queue as nat)
            &&& again.session == h
            &&& again.backlog.len() == 0
        }),
{
    let h = reg.clients[client_id];
    let offline = registry::detach_result(reg, h, reg.all[h].epoch, false, now);
    session::law_offline_queue_keeps_order(offline.all[h], rules.max_queue as nat, list, qos);
}

/// A session restored after a restart resumes when its client comes back, with the queue
/// that its file held and the subscriptions that were reinstated.
pub proof fn law_restored_session_is_resumed(
    reg: Sessions,
    rules: RegistryRules,
    client_id: Seq<char>,
    identity: Seq<char>,
    file: Option<Seq<u8>>,
    now: u128,
    filter: Seq<char>,
    sub: Sub,
    conn: u64,
    later: Option<Seq<u8>>,
)
    requires
        coherent(reg),
        reg.made < u64::MAX,
        !reg.clients.dom().contains(client_id),
    ensures
        ({
            let (restored, h) = registry::restore_result(
                reg,
                rules,
                client_id,
                identity,
                file,
                now,
            );
            let s = restored.all[h];
            let subscribed = registry::updated(
                restored,
                h,
                Session { subs: s.subs.insert(filter, sub), ..s },
            );
            let (next, out) = registry::attach_result(
                subscribed,
                rules,
                client_id,
                identity,
                false,
                conn,
                later,
            );
            &&& s.sink is None
            &&& out.session == h
            &&& out.session_present
            &&& out.backlog == registry::file_queue(file, rules.max_queue as nat)
            &&& next.all[h].subs.contains_pair(filter, sub)
        }),
{
}

/// Messages that were queued survive a restart: with the file that the queue was kept in,
/// the restored session hands the same messages over, in the same order.
pub proof fn law_queue_survives_a_restart(
    reg: Sessions,
    rules: RegistryRules,
    client_id: Seq<char>,
    identity: Seq<char>,
    queue: Seq<(Seq<char>, Seq<u8>)>,
    now: u128,
    conn: u64,
    later: Option<Seq<u8>>,
)
    requires
        coherent(reg),
        reg.made < u64::MAX,
        !reg.clients.dom().contains(client_id),
        queue.len() <= rules.max_queue,
        codec::pairs_fit(queue),
    ensures
        ({
            let (restored, h) = registry::restore_result(
                reg,
                rules,
                client_id,
                identity,
                Some(durable::queue_bytes(queue)),
                now,
            );
            let (_, out) = registry::attach_result(
                restored,
                rules,
                client_id,
                identity,
                false,
                conn,
                later,
            );
            &&& out.session == h
            &&& out.session_present
            &&& out.backlog == queue
        }),
{
    durable::law_queue_file_round_trip(queue, rules.max_queue as nat);
}

/// Without a session in memory and without files there is nothing to resume.
pub proof fn law_unknown_client_starts_fresh(
    reg: Sessions,
    rules: RegistryRules,
    client_id: Seq<char>,
    identity: Seq<char>,
    clean: bool,
    conn: u64,
)
    requires
        !reg.clients.dom().contains(client_id),
    ensures
        ({
            let (next, out) = registry::attach_result(
                reg,
                rules,
                client_id,
                identity,
                clean,
                conn,
                None,
            );
            &&& !out.session_present
            &&& out.backlog.len() == 0
            &&& out.kicked is None
            &&& next.all[out.session].subs == Map::<Seq<char>, Sub>::empty()
        }),
{
}

/// Attaching or detaching one client leaves the sessions of all others alone.
pub proof fn law_clients_are_independent(
    reg: Sessions,
    rules: RegistryRules,
    client_id: Seq<char>,
    identity: Seq<char>,
    clean: bool,
    conn: u64,
    file: Option<Seq<u8>>,
    other: Seq<char>,
    epoch: u64,
    now: u128,
)
    requires
        coherent(reg),
        reg.made < u64::MAX,
        reg.clients.dom().contains(other),
        other != client_id,
    ensures
        ({
            let (next, out) = registry::attach_result(
                reg,
                rules,
                client_id,
                identity,
                clean,
                conn,
                file,
            );
            let end = registry::detach_result(next, out.session, epoch, clean, now);
            &&& next.clients.contains_pair(other, reg.clients[other])
            &&& next.all.contains_pair(reg.clients[other], reg.all[reg.clients[other]])
            &&& end.clients.contains_pair(other, reg.clients[other])
            &&& end.all.contains_pair(reg.clients[other], reg.all[reg.clients[other]])
        }),
{
    let h = reg.clients[other];
    assert(h < reg.made);
    if reg.clients.dom().contains(client_id) {
        assert(reg.all[reg.clients[client_id]].client_id == client_id);
        assert(reg.all[h].client_id == other);
    }
}

/// A sweep drops no session with a live connection, and none before its time.
pub proof fn law_sweep_spares_the_living(
    reg: Sessions,
    expiry: u128,
    now: u128,
    client_id: Seq<char>,
)
    requires
        coherent(reg),
        reg.clients.dom().contains(client_id),
        ({
            let s = reg.all[reg.clients[client_id]];
            s.offline_since is None || now - s.offline_since->0 <= expiry
        }),
    ensures
        ({
            let next = registry::swept_sessions(reg, expiry, now);
            &&& next.clients.contains_pair(client_id, reg.clients[client_id])
            &&& next.all.contains_pair(
                reg.clients[client_id],
                reg.all[reg.clients[client_id]],
            )
        }),
{
}


/// A sweep drops every client that has been offline for longer than it may, whatever it
/// has queued and subscribed to: neither its client id nor its session is known after it,
/// and it counts as swept.
pub proof fn law_sweep_drops_the_expired(
    reg: Sessions,
    expiry: u128,
    now: u128,
    client_id: Seq<char>,
    t: u128,
)
    requires
        coherent(reg),
        reg.clients.dom().contains(client_id),
        reg.all[reg.clients[client_id]].offline_since == Some(t),
        now - t > expiry,
    ensures
        ({
            let next = registry::swept_sessions(reg, expiry, now);
            &&& registry::client_expired(reg, client_id, expiry, now)
            &&& !next.clients.dom().contains(client_id)
            &&& !next.all.dom().contains(reg.clients[client_id])
        }),
{
}

/// Who counts as swept was a client that had been offline for longer than it may.
pub proof fn law_only_the_expired_are_swept(
    reg: Sessions,
    expiry: u128,
    now: u128,
    client_id: Seq<char>,
)
    requires
        registry::client_expired(reg, client_id, expiry, now),
    ensures
        reg.clients.dom().contains(client_id),
        reg.all[reg.clients[client_id]].offline_since matches Some(t) && now - t > expiry,
{
}

} // verus!
