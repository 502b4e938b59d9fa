//! Laws of the sessions of a node, said of what each operation on them returns and
//! leaves: deliveries, takeovers, disconnects, failed sendings, kicks, subscriptions,
//! restarts and expiry.

use crate::codec;
use crate::durable;
use crate::packet::QoS;
use crate::registry::{self, AttachOutcome, DetachOutcome, SessionRegistry, Sessions, SweptSession};
use crate::session::{self, Delivery, Session, Step, Sub};
use vstd::prelude::*;
use vstd::string::*;

verus! {

/// A sweep drops every client whose session went offline at `t` with `now - t > expiry`,
/// whatever its queue and its subscriptions: the client id is unknown after it, its
/// session too, and it is listed among the swept, with the tasks of its subscriptions to
/// be ended and its files to be removed where it keeps any.
pub proof fn law_sweeps_drop_the_expired(
    reg: &mut SessionRegistry,
    expiry: u128,
    now: u128,
    r: Vec<SweptSession>,
    client_id: Seq<char>,
    t: u128,
)
    requires
        call_ensures(SessionRegistry::sweep, (reg, expiry, now), r),
        old(reg).wf(),
        old(reg)@.clients.dom().contains(client_id),
        old(reg)@.all[old(reg)@.clients[client_id]].offline_since == Some(t),
        now - t > expiry,
    ensures
        !final(reg)@.clients.dom().contains(client_id),
        !final(reg)@.all.dom().contains(old(reg)@.clients[client_id]),
        exists|i: int|
            0 <= i < r@.len() && ({
                let gone = #[trigger] r@[i];
                let s = old(reg)@.all[old(reg)@.clients[client_id]];
                &&& gone.client_id@ == client_id
                &&& gone.discard_files == s.durable
                &&& forall|f: Seq<char>| #[trigger]
                    s.subs.dom().contains(f) ==> gone.aborted@.contains(s.subs[f].task)
                &&& forall|task: u64| #[trigger]
                    gone.aborted@.contains(task) ==> exists|f: Seq<char>| #[trigger]
                        s.subs.dom().contains(f) && s.subs[f].task == task
            }),
{
    old(reg).lemma_coherent();
    let s = old(reg)@.all[old(reg)@.clients[client_id]];
    let ids = registry::swept_ids(r@);
    assert(ids.contains(client_id));
    let i = choose|i: int| 0 <= i < ids.len() && ids[i] == client_id;
    assert(r@[i].client_id@ == client_id);
    assert forall|f: Seq<char>| #[trigger] s.subs.dom().contains(f) implies r@[i].aborted@.contains(
        s.subs[f].task,
    ) by {
        assert(session::tasks_of(s.subs).contains(s.subs[f].task));
        assert(r@[i].aborted@.to_set().contains(s.subs[f].task));
    }
    assert forall|task: u64| #[trigger] r@[i].aborted@.contains(task) implies exists|f: Seq<char>|
        #[trigger] s.subs.dom().contains(f) && s.subs[f].task == task by {
        assert(r@[i].aborted@.to_set().contains(task));
        assert(session::tasks_of(s.subs).contains(task));
    }
}

/// A sweep drops nothing else: a client that is connected, or has not been offline for
/// longer than `expiry`, keeps its session as it is and is not listed, and a replaced
/// session stays until its own connection ends.
pub proof fn law_sweeps_drop_nothing_else(
    reg: &mut SessionRegistry,
    expiry: u128,
    now: u128,
    r: Vec<SweptSession>,
    client_id: Seq<char>,
    session: u64,
)
    requires
        call_ensures(SessionRegistry::sweep, (reg, expiry, now), r),
        old(reg).wf(),
        old(reg)@.clients.dom().contains(client_id),
        old(reg)@.all[old(reg)@.clients[client_id]].offline_since matches Some(t) ==> now - t
            <= expiry,
        old(reg)@.all.dom().contains(session),
        forall|c: Seq<char>| #[trigger]
            old(reg)@.clients.dom().contains(c) ==> old(reg)@.clients[c] != session,
    ensures
        final(reg)@.clients.contains_pair(client_id, old(reg)@.clients[client_id]),
        final(reg)@.all.contains_pair(
            old(reg)@.clients[client_id],
            old(reg)@.all[old(reg)@.clients[client_id]],
        ),
        forall|i: int| 0 <= i < r@.len() ==> (#[trigger] r@[i]).client_id@ != client_id,
        final(reg)@.all.contains_pair(session, old(reg)@.all[session]),
{
    old(reg).lemma_coherent();
    let ids = registry::swept_ids(r@);
    assert forall|i: int| 0 <= i < r@.len() implies (#[trigger] r@[i]).client_id@ != client_id by {
        assert(ids[i] == r@[i].client_id@);
        assert(ids.contains(ids[i]));
    }
}

/// While a session is connected every message for it goes to that connection, whatever
/// its quality of service, under a packet id above QoS 0 and under none at QoS 0; the
/// queue is not touched.
pub proof fn law_connected_sessions_are_sent_to(
    reg: &mut SessionRegistry,
    h: u64,
    topic: &str,
    payload: &[u8],
    qos: QoS,
    r: Step,
    conn: u64,
)
    requires
        call_ensures(SessionRegistry::deliver, (reg, h, topic, payload, qos), r),
        old(reg)@.all.dom().contains(h),
        old(reg)@.all[h].sink == Some(conn),
    ensures
        r matches Step::Send(to, pkid) && to == conn && (pkid == 0 <==> qos.number() == 0),
        final(reg)@.all[h] == (Session { pkid: final(reg)@.all[h].pkid, ..old(reg)@.all[h] }),
        final(reg)@.all.remove(h) =~= old(reg)@.all.remove(h),
        final(reg)@.clients == old(reg)@.clients,
{
}

/// For a session without a connection a message above QoS 0 becomes the newest of its
/// queue, and nothing that was queued is lost while there is room; a full queue loses its
/// oldest message, which is counted. At QoS 0, or without a queue, it is dropped and
/// nothing changes; so it is for a session that is not known.
pub proof fn law_offline_sessions_are_queued_for(
    reg: &mut SessionRegistry,
    h: u64,
    topic: &str,
    payload: &[u8],
    qos: QoS,
    r: Step,
)
    requires
        call_ensures(SessionRegistry::deliver, (reg, h, topic, payload, qos), r),
        old(reg)@.all.dom().contains(h) ==> old(reg)@.all[h].sink is None,
    ensures
        ({
            let before = old(reg)@.all[h];
            let after = final(reg)@.all[h];
            let max = old(reg).rules().max_queue;
            let queued = old(reg)@.all.dom().contains(h) && qos.number() > 0 && max > 0;
            &&& !queued ==> {
                &&& r == Step::Done(Delivery::Dropped)
                &&& final(reg)@.all =~= old(reg)@.all
            }
            &&& queued ==> {
                &&& r == Step::Done(Delivery::Queued)
                &&& after.queue.len() > 0
                &&& after.queue.last() == (topic@, payload@)
                &&& before.queue.len() < max ==> after.queue.drop_last() =~= before.queue
                    && after.dropped == before.dropped
                &&& before.queue.len() >= max && before.queue.len() > 0 ==> after.queue.drop_last()
                    =~= before.queue.subrange(1, before.queue.len() as int)
                &&& before.queue.len() >= max && before.dropped < u64::MAX ==> after.dropped
                    == before.dropped + 1
                &&& after == (Session { queue: after.queue, dropped: after.dropped, ..before })
            }
            &&& final(reg)@.all.remove(h) =~= old(reg)@.all.remove(h)
            &&& final(reg)@.clients == old(reg)@.clients
        }),
{
}

/// A client that resumes takes its session over as it is: subscriptions and packet ids
/// stay, the backlog is what was queued, the connection before is the one to be kicked
/// and is told of the takeover, and no subscription ends.
pub proof fn law_resuming_keeps_the_session(
    reg: &mut SessionRegistry,
    client_id: &str,
    identity: &str,
    conn: u64,
    file: Option<&[u8]>,
    r: AttachOutcome,
)
    requires
        call_ensures(SessionRegistry::attach, (reg, client_id, identity, false, conn, file), r),
        old(reg).wf(),
        old(reg)@.clients.dom().contains(client_id@),
    ensures
        ({
            let h = old(reg)@.clients[client_id@];
            let s = old(reg)@.all[h];
            let t = final(reg)@.all[h];
            &&& r.session == h
            &&& r.session_present
            &&& session::messages(r.backlog@) == s.queue
            &&& r.kicked == s.kick
            &&& r.aborted@.len() == 0
            &&& r.discard_queue == s.durable
            &&& !r.discard_subs
            &&& r.epoch == t.epoch
            &&& s.epoch < u64::MAX ==> t.epoch == s.epoch + 1
            &&& t.sink == Some(conn) && t.kick == Some(conn)
            &&& t.identity == identity@ && t.client_id == s.client_id
            &&& t.subs == s.subs && t.pkid == s.pkid && t.durable == s.durable
            &&& t.dropped == s.dropped
            &&& t.queue.len() == 0 && t.offline_since is None
            &&& s.kick is Some ==> t.kick_reason == Some(
                "session taken over by a new connection"@,
            )
            &&& s.kick is None ==> t.kick_reason == s.kick_reason
            &&& final(reg)@.clients == old(reg)@.clients
            &&& final(reg)@.made == old(reg)@.made
        }),
{
    if r.aborted@.len() > 0 {
        assert(r.aborted@.to_set().contains(r.aborted@[0]));
    }
}

/// A client that starts clean, or is not known, gets a session of its own with no
/// subscriptions and a number never used before. A session that it replaces ends its
/// subscriptions; where it still has a connection that one is kicked as taken over.
pub proof fn law_new_sessions_start_empty(
    reg: &mut SessionRegistry,
    client_id: &str,
    identity: &str,
    clean: bool,
    conn: u64,
    file: Option<&[u8]>,
    r: AttachOutcome,
)
    requires
        call_ensures(SessionRegistry::attach, (reg, client_id, identity, clean, conn, file), r),
        old(reg).wf(),
        old(reg)@.made < u64::MAX,
        clean || !old(reg)@.clients.dom().contains(client_id@),
    ensures
        ({
            let known = old(reg)@.clients.dom().contains(client_id@);
            let h = old(reg)@.clients[client_id@];
            let s = old(reg)@.all[h];
            let t = final(reg)@.all[r.session];
            let durable = old(reg).rules().durable;
            &&& r.session == old(reg)@.made
            &&& final(reg)@.made == old(reg)@.made + 1
            &&& final(reg)@.clients.contains_pair(client_id@, r.session)
            &&& !old(reg)@.all.dom().contains(r.session)
            &&& t.client_id == client_id@ && t.identity == identity@
            &&& t.sink == Some(conn) && t.kick == Some(conn)
            &&& t.subs.dom() =~= Set::empty()
            &&& t.queue.len() == 0 && t.offline_since is None && t.dropped == 0
            &&& t.epoch == 1 && r.epoch == 1 && t.pkid == 1 && t.kick_reason is None
            &&& t.durable == (durable && !clean)
            &&& clean ==> r.backlog@.len() == 0
            &&& r.session_present == (!clean && durable && file is Some)
            &&& r.discard_queue == durable
            &&& r.discard_subs == (durable && clean)
            &&& r.kicked == (if known {
                s.kick
            } else {
                None
            })
            &&& known ==> r.aborted@.to_set() == session::tasks_of(s.subs)
            &&& !known ==> r.aborted@.to_set() =~= Set::empty()
            &&& known && s.kick is None ==> !final(reg)@.all.dom().contains(h)
            &&& known && s.kick is Some ==> {
                &&& final(reg)@.all.dom().contains(h)
                &&& final(reg)@.all[h].kick == s.kick
                &&& final(reg)@.all[h].subs.dom() =~= Set::empty()
                &&& final(reg)@.all[h].kick_reason == Some(
                    "session taken over by a new connection"@,
                )
            }
        }),
{
    old(reg).lemma_coherent();
    if clean && r.backlog@.len() > 0 {
        assert(session::messages(r.backlog@).len() == r.backlog@.len());
    }
}

/// When the connection of a session ends, a persistent session stays with all that it
/// has, offline from that time on; a clean one is gone, its subscriptions are ended and
/// its files removed. A connection that was superseded, or is of no known session,
/// changes nothing.
pub proof fn law_detaching(
    reg: &mut SessionRegistry,
    h: u64,
    epoch: u64,
    clean: bool,
    now: u128,
    r: DetachOutcome,
)
    requires
        call_ensures(SessionRegistry::detach, (reg, h, epoch, clean, now), r),
        old(reg).wf(),
    ensures
        ({
            let s = old(reg)@.all[h];
            let current = old(reg)@.all.dom().contains(h) && s.epoch == epoch;
            let own = old(reg)@.clients.contains_pair(s.client_id, h);
            &&& r.detached == current
            &&& !current ==> final(reg)@ == old(reg)@ && !r.discard_files && r.aborted@.len() == 0
            &&& current && !clean && own ==> {
                &&& final(reg)@.clients == old(reg)@.clients
                &&& final(reg)@.all =~= old(reg)@.all.insert(
                    h,
                    Session { sink: None, kick: None, offline_since: Some(now), ..s },
                )
                &&& r.aborted@.len() == 0 && !r.discard_files
            }
            &&& current && (clean || !own) ==> {
                &&& final(reg)@.all =~= old(reg)@.all.remove(h)
                &&& final(reg)@.clients == (if own {
                    old(reg)@.clients.remove(s.client_id)
                } else {
                    old(reg)@.clients
                })
            }
            &&& current && clean ==> {
                &&& r.aborted@.to_set() == session::tasks_of(s.subs)
                &&& r.discard_files == s.durable
            }
        }),
{
    if r.aborted@.len() > 0 {
        assert(r.aborted@.to_set().contains(r.aborted@[0]));
    }
}

/// A connection on which sending fails is no longer sent to, and the session is offline
/// from that time on; where the sending has timed out the connection is evicted: it is the
/// one to be kicked, as a slow consumer. A failure on another connection than the
/// session's changes nothing.
pub proof fn law_failed_sendings(
    reg: &mut SessionRegistry,
    h: u64,
    conn: u64,
    timed_out: bool,
    now: u128,
    r: (bool, Option<u64>),
)
    requires
        call_ensures(SessionRegistry::send_failed, (reg, h, conn, timed_out, now), r),
    ensures
        ({
            let s = old(reg)@.all[h];
            let current = old(reg)@.all.dom().contains(h) && s.sink == Some(conn);
            &&& !current ==> final(reg)@.all =~= old(reg)@.all && r == (false, None::<u64>)
            &&& current ==> {
                &&& r.0 == timed_out
                &&& r.1 == (if timed_out {
                    s.kick
                } else {
                    None
                })
                &&& final(reg)@.all =~= old(reg)@.all.insert(
                    h,
                    Session {
                        sink: None,
                        offline_since: Some(now),
                        kick_reason: if timed_out {
                            Some("slow consumer: outbound queue stayed full past the grace period"@)
                        } else {
                            s.kick_reason
                        },
                        ..s
                    },
                )
            }
            &&& final(reg)@.clients == old(reg)@.clients
        }),
{
}

/// A kick by client id reaches exactly the connection that this client has here, and
/// records why; it ends nothing by itself. The reason is then read once.
pub proof fn law_kicks(
    reg: &mut SessionRegistry,
    client_id: &str,
    r: Option<u64>,
    later: &mut SessionRegistry,
    h: u64,
    reason: Option<&'static str>,
)
    requires
        call_ensures(SessionRegistry::kick, (reg, client_id), r),
        call_ensures(SessionRegistry::take_kick_reason, (later, h), reason),
        old(reg).wf(),
    ensures
        ({
            let known = old(reg)@.clients.dom().contains(client_id@);
            let own = old(reg)@.clients[client_id@];
            let s = old(reg)@.all[own];
            &&& !known ==> r is None
            &&& known ==> r == s.kick
            &&& r is None ==> final(reg)@.all =~= old(reg)@.all
            &&& r is Some ==> final(reg)@.all =~= old(reg)@.all.insert(
                own,
                Session {
                    kick_reason: Some("disconnected on request of a control center"@),
                    ..s
                },
            )
            &&& final(reg)@.clients == old(reg)@.clients
        }),
        old(later)@.all.dom().contains(h) ==> {
            &&& old(later)@.all[h].kick_reason is None <==> reason is None
            &&& reason matches Some(why) ==> old(later)@.all[h].kick_reason == Some(why@)
            &&& final(later)@.all[h].kick_reason is None
            &&& final(later)@.all[h].sink == old(later)@.all[h].sink
        },
        !old(later)@.all.dom().contains(h) ==> reason is None && final(later)@ == old(later)@,
{
    old(reg).lemma_coherent();
}

/// Packet ids run through 1 to 65535 and begin again: none is 0, and each is the one
/// after the last that was given out.
pub proof fn law_packet_ids_follow_each_other(
    reg: &mut SessionRegistry,
    later: &mut SessionRegistry,
    h: u64,
    first: Option<u16>,
    second: Option<u16>,
)
    requires
        call_ensures(SessionRegistry::next_pkid, (reg, h), first),
        call_ensures(SessionRegistry::next_pkid, (later, h), second),
        old(reg)@.all.dom().contains(h),
        old(later)@ == final(reg)@,
    ensures
        first matches Some(a) && second matches Some(b) && a != 0 && b == (if a == 65535 {
            1
        } else {
            a + 1
        }),
        old(reg)@.all[h].pkid != 0 ==> first == Some(old(reg)@.all[h].pkid),
{
}

/// A subscription that is added is there with its task and its quality of service, and
/// takes the place of one to the same filter, whose task is then to be ended; every other
/// subscription stays. For a session that is not known the new task is to be ended.
pub proof fn law_adding_a_subscription(
    reg: &mut SessionRegistry,
    h: u64,
    filter: String,
    sub: Sub,
    r: Option<u64>,
    other: Seq<char>,
)
    requires
        call_ensures(SessionRegistry::insert_sub, (reg, h, filter, sub), r),
        other != filter@,
    ensures
        old(reg)@.all.dom().contains(h) ==> {
            let before = old(reg)@.all[h];
            let after = final(reg)@.all[h];
            &&& after.subs.contains_pair(filter@, sub)
            &&& after.subs.dom().contains(other) == before.subs.dom().contains(other)
            &&& after.subs[other] == before.subs[other]
            &&& before.subs.dom().contains(filter@) ==> r == Some(before.subs[filter@].task)
            &&& !before.subs.dom().contains(filter@) ==> r is None
            &&& after == (Session { subs: after.subs, ..before })
        },
        !old(reg)@.all.dom().contains(h) ==> r == Some(sub.task) && final(reg)@ == old(reg)@,
        final(reg)@.all.remove(h) =~= old(reg)@.all.remove(h),
        final(reg)@.clients == old(reg)@.clients,
{
}

/// A restored session belongs to its client and identity, is offline from that time on,
/// has the queue of its file and no subscriptions yet; a client that is known already
/// keeps its session as it is.
pub proof fn law_restoring(
    reg: &mut SessionRegistry,
    client_id: &str,
    identity: &str,
    file: Option<&[u8]>,
    now: u128,
    r: u64,
)
    requires
        call_ensures(SessionRegistry::restore, (reg, client_id, identity, file, now), r),
        old(reg).wf(),
        old(reg)@.made < u64::MAX,
    ensures
        old(reg)@.clients.dom().contains(client_id@) ==> final(reg)@ == old(reg)@ && r == old(
            reg,
        )@.clients[client_id@],
        !old(reg)@.clients.dom().contains(client_id@) ==> {
            let s = final(reg)@.all[r];
            &&& final(reg)@.clients =~= old(reg)@.clients.insert(client_id@, r)
            &&& !old(reg)@.all.dom().contains(r)
            &&& final(reg)@.all.remove(r) =~= old(reg)@.all
            &&& s.client_id == client_id@ && s.identity == identity@
            &&& s.sink is None && s.kick is None && s.offline_since == Some(now)
            &&& s.subs.dom() =~= Set::empty()
            &&& s.pkid == 1 && s.dropped == 0 && s.kick_reason is None
            &&& s.durable == old(reg).rules().durable
            &&& file is None ==> s.queue.len() == 0
            &&& file matches Some(data) ==> match durable::loaded_queue(
                data@,
                old(reg).rules().max_queue as nat,
            ) {
                Ok(queue) => s.queue == queue,
                Err(_) => s.queue.len() == 0,
            }
        },
{
    old(reg).lemma_coherent();
}

/// What is kept of a session across a restart is all of it: its queue can be read back
/// from the file, and the list of its subscriptions names each with its quality of
/// service, under its client and identity. A session that is not kept in files, or not
/// known, has no files.
pub proof fn law_files_hold_the_session(
    reg: &SessionRegistry,
    h: u64,
    queue: Option<Vec<u8>>,
    subs: Option<durable::SubsFile>,
    filter: Seq<char>,
)
    requires
        call_ensures(SessionRegistry::queue_file, (reg, h), queue),
        call_ensures(SessionRegistry::subs_file, (reg, h), subs),
        reg.wf(),
    ensures
        ({
            let s = reg@.all[h];
            let kept = reg@.all.dom().contains(h) && s.durable;
            &&& !kept ==> queue is None && subs is None
            &&& kept && codec::pairs_fit(s.queue) ==> (queue matches Some(b)
                && durable::loaded_queue(b@, reg.rules().max_queue as nat) == Ok::<
                Seq<(Seq<char>, Seq<u8>)>,
                durable::QueueError,
            >(s.queue))
            &&& kept ==> {
                &&& subs matches Some(f)
                &&& f@.client_id == s.client_id && f@.identity == s.identity
                &&& s.subs.dom().contains(filter) <==> exists|i: int|
                    0 <= i < f@.subs.len() && (#[trigger] f@.subs[i]).0 == filter
                &&& forall|i: int|
                    0 <= i < f@.subs.len() ==> (#[trigger] f@.subs[i]).1 == s.subs[f@.subs[i].0].qos
            }
        }),
{
    let s = reg@.all[h];
    if reg@.all.dom().contains(h) && s.durable && codec::pairs_fit(s.queue) {
        durable::law_queue_file_round_trip(s.queue, reg.rules().max_queue as nat);
        reg.lemma_queues_keep_to_limit();
    }
}

/// A new registry knows nobody.
pub proof fn law_registries_start_empty(
    max_queue: usize,
    durable: bool,
    reg: SessionRegistry,
    h: u64,
    known: bool,
)
    requires
        call_ensures(SessionRegistry::new, (max_queue, durable), reg),
        call_ensures(SessionRegistry::knows, (&reg, h), known),
    ensures
        reg.wf(),
        !known,
        reg.rules().max_queue == max_queue,
        reg.rules().durable == durable,
        reg@.clients.dom() =~= Set::empty(),
{
}

/// The counts of a node: as many sessions as there are clients, and as many of them
/// offline as have no connection.
pub proof fn law_stats_count_the_clients(reg: &SessionRegistry, r: (u64, u64, u64, u64))
    requires
        call_ensures(SessionRegistry::stats, (reg,), r),
    ensures
        reg@.clients.dom().finite(),
        r.0 == reg@.clients.dom().len(),
        r.1 == reg@.clients.dom().filter(
            |c: Seq<char>| reg@.all[reg@.clients[c]].sink is None,
        ).len(),
{
    let ids = choose|ids: Seq<Seq<char>>| #[trigger]
        registry::enumerates(reg@, ids) && r.0 == ids.len() && r.1 == registry::offline_count(
            reg@,
            ids,
        ) && r.2 == registry::queued_count(reg@, ids) % 0x1_0000_0000_0000_0000 && r.3
            == registry::dropped_count(reg@, ids) % 0x1_0000_0000_0000_0000;
    lemma_offline(reg@, ids);
    ids.unique_seq_to_set();
    assert(reg@.clients.dom() =~= ids.to_set());
}

proof fn lemma_offline(reg: Sessions, ids: Seq<Seq<char>>)
    requires
        ids.no_duplicates(),
    ensures
        ids.to_set().filter(|c: Seq<char>| reg.all[reg.clients[c]].sink is None).finite(),
        registry::offline_count(reg, ids) == ids.to_set().filter(
            |c: Seq<char>| reg.all[reg.clients[c]].sink is None,
        ).len(),
    decreases ids.len(),
{
    let offline = |c: Seq<char>| reg.all[reg.clients[c]].sink is None;
    if ids.len() == 0 {
        assert(ids.to_set().filter(offline) =~= Set::empty());
    } else {
        let before = ids.drop_last();
        let c = ids.last();
        lemma_offline(reg, before);
        assert forall|d: Seq<char>| #[trigger] ids.to_set().contains(d) <==> before.to_set().contains(
            d,
        ) || d == c by {
            if ids.contains(d) {
                let i = choose|i: int| 0 <= i < ids.len() && ids[i] == d;
                if i < before.len() {
                    assert(before[i] == d);
                }
            }
            if before.contains(d) {
                let i = choose|i: int| 0 <= i < before.len() && before[i] == d;
                assert(ids[i] == d);
            }
            assert(ids[ids.len() - 1] == c);
        }
        assert(!before.contains(c)) by {
            if before.contains(c) {
                let i = choose|i: int| 0 <= i < before.len() && before[i] == c;
                assert(ids[i] == ids[ids.len() - 1]);
            }
        }
        if offline(c) {
            assert(ids.to_set().filter(offline) =~= before.to_set().filter(offline).insert(c));
        } else {
            assert(ids.to_set().filter(offline) =~= before.to_set().filter(offline));
        }
    }
}

/// The counts of queued and of lost messages take in every client: nothing without
/// clients, and with each client more just what its session holds and has lost.
pub proof fn law_message_counts_add_up(reg: Sessions, ids: Seq<Seq<char>>, client_id: Seq<char>)
    ensures
        registry::queued_count(reg, Seq::empty()) == 0,
        registry::dropped_count(reg, Seq::empty()) == 0,
        registry::queued_count(reg, ids.push(client_id)) == registry::queued_count(reg, ids)
            + reg.all[reg.clients[client_id]].queue.len(),
        registry::dropped_count(reg, ids.push(client_id)) == registry::dropped_count(reg, ids)
            + reg.all[reg.clients[client_id]].dropped,
{
    assert(ids.push(client_id).drop_last() =~= ids);
}


/// A number of each client, added up over a list of clients.
pub open spec fn total(ids: Seq<Seq<char>>, number: spec_fn(Seq<char>) -> nat) -> nat
    decreases ids.len(),
{
    if ids.len() == 0 {
        0
    } else {
        number(ids[0]) + total(ids.skip(1), number)
    }
}

proof fn lemma_total_last(ids: Seq<Seq<char>>, number: spec_fn(Seq<char>) -> nat)
    requires
        ids.len() > 0,
    ensures
        total(ids, number) == total(ids.drop_last(), number) + number(ids.last()),
    decreases ids.len(),
{
    if ids.len() == 1 {
        assert(ids.drop_last() =~= Seq::empty());
        assert(ids.skip(1) =~= Seq::empty());
    } else {
        lemma_total_last(ids.skip(1), number);
        assert(ids.skip(1).drop_last() =~= ids.drop_last().skip(1));
    }
}

proof fn lemma_counts_are_totals(reg: Sessions, ids: Seq<Seq<char>>)
    ensures
        registry::queued_count(reg, ids) == total(
            ids,
            |c: Seq<char>| reg.all[reg.clients[c]].queue.len(),
        ),
        registry::dropped_count(reg, ids) == total(
            ids,
            |c: Seq<char>| reg.all[reg.clients[c]].dropped as nat,
        ),
    decreases ids.len(),
{
    if ids.len() > 0 {
        lemma_counts_are_totals(reg, ids.drop_last());
        lemma_total_last(ids, |c: Seq<char>| reg.all[reg.clients[c]].queue.len());
        lemma_total_last(ids, |c: Seq<char>| reg.all[reg.clients[c]].dropped as nat);
    }
}

/// A total does not depend on the order of the list.
proof fn lemma_total_remove(ids: Seq<Seq<char>>, number: spec_fn(Seq<char>) -> nat, k: int)
    requires
        0 <= k < ids.len(),
    ensures
        total(ids, number) == total(ids.remove(k), number) + number(ids[k]),
    decreases ids.len(),
{
    if k == 0 {
        assert(ids.remove(0) =~= ids.skip(1));
    } else {
        lemma_total_remove(ids.skip(1), number, k - 1);
        assert(ids.skip(1).remove(k - 1) =~= ids.remove(k).skip(1));
        assert(ids.remove(k)[0] == ids[0]);
    }
}

/// A total over clients, each once, depends on the set of clients alone.
pub proof fn law_totals_are_determined(
    a: Seq<Seq<char>>,
    b: Seq<Seq<char>>,
    number: spec_fn(Seq<char>) -> nat,
)
    requires
        a.no_duplicates(),
        b.no_duplicates(),
        forall|c: Seq<char>| #[trigger] a.contains(c) <==> b.contains(c),
    ensures
        total(a, number) == total(b, number),
    decreases a.len(),
{
    if a.len() == 0 {
        if b.len() > 0 {
            assert(b.contains(b[0]));
            assert(a.contains(b[0]));
        }
    } else {
        let c = a[0];
        assert(a.contains(c));
        let k = choose|k: int| 0 <= k < b.len() && b[k] == c;
        let rest = a.skip(1);
        let others = b.remove(k);
        lemma_total_remove(b, number, k);
        assert(rest.no_duplicates()) by {
            assert forall|i: int, j: int| 0 <= i < rest.len() && 0 <= j < rest.len() && i != j implies rest[i]
                != rest[j] by {
                assert(rest[i] == a[i + 1] && rest[j] == a[j + 1]);
            }
        }
        assert forall|i: int| 0 <= i < others.len() implies #[trigger] others[i] == b[if i < k {
            i
        } else {
            i + 1
        }] by {}
        assert(others.no_duplicates());
        assert forall|d: Seq<char>| #[trigger] rest.contains(d) <==> others.contains(d) by {
            if rest.contains(d) {
                let i = choose|i: int| 0 <= i < rest.len() && rest[i] == d;
                assert(a[i + 1] == d);
                assert(d != c);
                assert(a.contains(d));
                let j = choose|j: int| 0 <= j < b.len() && b[j] == d;
                if j < k {
                    assert(others[j] == d);
                } else {
                    assert(others[j - 1] == d);
                }
            }
            if others.contains(d) {
                let j = choose|j: int| 0 <= j < others.len() && others[j] == d;
                let at = if j < k {
                    j
                } else {
                    j + 1
                };
                assert(b[at] == d);
                assert(d != c);
                assert(b.contains(d));
                assert(a.contains(d));
                let i = choose|i: int| 0 <= i < a.len() && a[i] == d;
                assert(rest[i - 1] == d);
            }
        }
        law_totals_are_determined(rest, others, number);
    }
}

/// The counts of queued and of lost messages are those of all clients together, each
/// client once, in whatever order they are taken.
pub proof fn law_stats_count_the_messages(
    reg: &SessionRegistry,
    r: (u64, u64, u64, u64),
    ids: Seq<Seq<char>>,
)
    requires
        call_ensures(SessionRegistry::stats, (reg,), r),
        ids.no_duplicates(),
        forall|c: Seq<char>| #[trigger] ids.contains(c) <==> reg@.clients.dom().contains(c),
    ensures
        r.2 == total(ids, |c: Seq<char>| reg@.all[reg@.clients[c]].queue.len())
            % 0x1_0000_0000_0000_0000,
        r.3 == total(ids, |c: Seq<char>| reg@.all[reg@.clients[c]].dropped as nat)
            % 0x1_0000_0000_0000_0000,
{
    let own = choose|own: Seq<Seq<char>>| #[trigger]
        registry::enumerates(reg@, own) && r.0 == own.len() && r.1 == registry::offline_count(
            reg@,
            own,
        ) && r.2 == registry::queued_count(reg@, own) % 0x1_0000_0000_0000_0000 && r.3
            == registry::dropped_count(reg@, own) % 0x1_0000_0000_0000_0000;
    lemma_counts_are_totals(reg@, own);
    assert forall|c: Seq<char>| #[trigger] own.contains(c) <==> ids.contains(c) by {
        assert(reg@.clients.dom().contains(c) <==> own.contains(c));
    }
    law_totals_are_determined(own, ids, |c: Seq<char>| reg@.all[reg@.clients[c]].queue.len());
    law_totals_are_determined(
        own,
        ids,
        |c: Seq<char>| reg@.all[reg@.clients[c]].dropped as nat,
    );
}

/// A subscription that is taken away is gone, and its task is handed out to be ended; for
/// a session that is not known, or a filter that it does not have, there is none.
pub proof fn law_taking_a_subscription_away(
    reg: &mut SessionRegistry,
    h: u64,
    filter: &str,
    r: Option<u64>,
    other: Seq<char>,
)
    requires
        call_ensures(SessionRegistry::remove_sub, (reg, h, filter), r),
        other != filter@,
    ensures
        !old(reg)@.all.dom().contains(h) ==> r is None && final(reg)@ == old(reg)@,
        old(reg)@.all.dom().contains(h) ==> {
            let before = old(reg)@.all[h];
            let after = final(reg)@.all[h];
            &&& !after.subs.dom().contains(filter@)
            &&& after.subs.dom().contains(other) == before.subs.dom().contains(other)
            &&& before.subs.dom().contains(other) ==> after.subs[other] == before.subs[other]
            &&& before.subs.dom().contains(filter@) ==> r == Some(before.subs[filter@].task)
            &&& !before.subs.dom().contains(filter@) ==> r is None
            &&& after == (Session { subs: after.subs, ..before })
        },
        final(reg)@.all.remove(h) =~= old(reg)@.all.remove(h),
{
}


/// The counts of sessions and messages are the same in whatever order the clients are
/// gone through.
pub proof fn law_counts_are_determined(reg: Sessions, a: Seq<Seq<char>>, b: Seq<Seq<char>>)
    requires
        registry::enumerates(reg, a),
        registry::enumerates(reg, b),
    ensures
        a.len() == b.len(),
        registry::offline_count(reg, a) == registry::offline_count(reg, b),
        registry::queued_count(reg, a) == registry::queued_count(reg, b),
        registry::dropped_count(reg, a) == registry::dropped_count(reg, b),
{
    assert forall|c: Seq<char>| #[trigger] a.contains(c) <==> b.contains(c) by {
        assert(reg.clients.dom().contains(c) <==> a.contains(c));
        assert(reg.clients.dom().contains(c) <==> b.contains(c));
    }
    a.unique_seq_to_set();
    b.unique_seq_to_set();
    assert(a.to_set() =~= b.to_set());
    lemma_offline(reg, a);
    lemma_offline(reg, b);
    lemma_counts_are_totals(reg, a);
    lemma_counts_are_totals(reg, b);
    law_totals_are_determined(a, b, |c: Seq<char>| reg.all[reg.clients[c]].queue.len());
    law_totals_are_determined(a, b, |c: Seq<char>| reg.all[reg.clients[c]].dropped as nat);
}


/// The tasks of subscriptions are those that serve one of them.
pub proof fn law_tasks_of_subscriptions(subs: Map<Seq<char>, Sub>, task: u64)
    ensures
        session::tasks_of(subs).contains(task) <==> exists|f: Seq<char>| #[trigger]
            subs.dom().contains(f) && subs[f].task == task,
{
}

} // verus!
