//! One MQTT session: its live connection, its subscriptions and its offline queue.
//!
//! A session owns its subscriptions, so that they keep collecting after the connection
//! is gone. While the client is offline, QoS 1 traffic is queued (bounded, the oldest
//! goes first) and handed over on reconnect. Reconnecting takes the session over: the
//! previous connection is kicked, and the connection epoch keeps the loser of that race
//! from detaching the winner. A client whose outbound queue stays full past the grace
//! period is kicked, and delivery goes on by the offline queue.
//!
//! Connections and forwarding tasks are known here by numbers.

use crate::codec;
use crate::durable::{self, save_queue, SubsFile};
use crate::packet::{self, QoS};
use crate::strmap::StrMap;
use crate::text;
use std::collections::VecDeque;
use vstd::prelude::*;
use vstd::string::*;

verus! {

pub const KICK_TAKEOVER: &'static str = "session taken over by a new connection";

pub const KICK_SLOW: &'static str = "slow consumer: outbound queue stayed full past the grace period";

pub const KICK_REQUESTED: &'static str = "disconnected on request of a control center";

/// A subscription: the task that forwards its messages, and the quality of service
/// granted.
#[derive(Debug, Clone, Copy, PartialEq, Eq, Structural)]
pub struct Sub {
    pub task: u64,
    pub qos: QoS,
}

/// What became of a message for a session.
#[derive(Debug, Clone, Copy, PartialEq, Eq, Structural)]
pub enum Delivery {
    Sent,
    Queued,
    Dropped,
}

/// What to do next with a message for a session.
#[derive(Debug, Clone, Copy, PartialEq, Eq, Structural)]
pub enum Step {
    /// Send it on a connection under a packet id (0 for QoS 0), and report a failure.
    Send(u64, u16),
    /// Nothing: it has been taken care of.
    Done(Delivery),
}

/// A session as plain values.
pub struct Session {
    pub client_id: Seq<char>,
    /// The identity that the session belongs to.
    pub identity: Seq<char>,
    /// Counts the connections that the session has had.
    pub epoch: u64,
    /// The connection that messages go to.
    pub sink: Option<u64>,
    /// The connection that a kick goes to.
    pub kick: Option<u64>,
    /// Why the current connection was kicked.
    pub kick_reason: Option<Seq<char>>,
    pub subs: Map<Seq<char>, Sub>,
    /// Messages for the client while it is offline, oldest first.
    pub queue: Seq<(Seq<char>, Seq<u8>)>,
    /// Messages dropped from the full queue.
    pub dropped: u64,
    /// When the client went offline, in nanoseconds.
    pub offline_since: Option<u128>,
    /// The next packet id.
    pub pkid: u16,
    /// Whether the queue is kept in a file.
    pub durable: bool,
}

/// Queued messages as plain values.
pub open spec fn messages(q: Seq<(String, Vec<u8>)>) -> Seq<(Seq<char>, Seq<u8>)> {
    q.map_values(|m: (String, Vec<u8>)| (m.0@, m.1@))
}

/// A new session with a queue from earlier.
pub open spec fn fresh_session(
    client_id: Seq<char>,
    identity: Seq<char>,
    queue: Seq<(Seq<char>, Seq<u8>)>,
    durable: bool,
) -> Session {
    Session {
        client_id,
        identity,
        epoch: 0,
        sink: None,
        kick: None,
        kick_reason: None,
        subs: Map::empty(),
        queue,
        dropped: 0,
        offline_since: None,
        pkid: 1,
        durable,
    }
}

/// A number and the one after it; packet id 0 is invalid and skipped.
pub open spec fn packet_id(pkid: u16) -> (u16, u16) {
    if pkid == 0 {
        (1, 2)
    } else if pkid == u16::MAX {
        (pkid, 0)
    } else {
        (pkid, (pkid + 1) as u16)
    }
}

/// A session that a connection takes over: the previous one is told why.
pub open spec fn taken_over(s: Session, identity: Seq<char>, conn: u64) -> Session {
    Session {
        identity,
        epoch: s.epoch.wrapping_add(1),
        sink: Some(conn),
        kick: Some(conn),
        kick_reason: if s.kick is Some {
            Some(KICK_TAKEOVER@)
        } else {
            s.kick_reason
        },
        queue: Seq::empty(),
        offline_since: None,
        ..s
    }
}

/// A session whose connection has ended.
pub open spec fn gone_offline(s: Session, now: u128) -> Session {
    Session { sink: None, kick: None, offline_since: Some(now), ..s }
}

/// A session whose connection, if any, is kicked.
pub open spec fn kicked(s: Session, reason: Seq<char>) -> Session {
    if s.kick is Some {
        Session { kick_reason: Some(reason), ..s }
    } else {
        s
    }
}

/// Whether a session has been offline for longer than `expiry`.
pub open spec fn is_expired(s: Session, expiry: u128, now: u128) -> bool {
    match s.offline_since {
        Some(t) => now >= t && now - t > expiry,
        None => false,
    }
}

/// A queue with one message more; a full one loses its oldest.
pub open spec fn queue_put(
    queue: Seq<(Seq<char>, Seq<u8>)>,
    max_queue: nat,
    message: (Seq<char>, Seq<u8>),
) -> Seq<(Seq<char>, Seq<u8>)> {
    if queue.len() >= max_queue {
        queue.skip(1).push(message)
    } else {
        queue.push(message)
    }
}

/// The first step of delivering a message: to the live connection if there is one, to
/// the queue above QoS 0, else nowhere.
pub open spec fn deliver_step(
    s: Session,
    max_queue: nat,
    topic: Seq<char>,
    payload: Seq<u8>,
    qos: QoS,
) -> (Session, Step) {
    match s.sink {
        Some(conn) => if qos == QoS::AtMostOnce {
            (s, Step::Send(conn, 0))
        } else {
            let (id, next) = packet_id(s.pkid);
            (Session { pkid: next, ..s }, Step::Send(conn, id))
        },
        None => if qos == QoS::AtMostOnce || max_queue == 0 {
            (s, Step::Done(Delivery::Dropped))
        } else {
            (
                Session {
                    queue: queue_put(s.queue, max_queue, (topic, payload)),
                    dropped: if s.queue.len() >= max_queue {
                        s.dropped.wrapping_add(1)
                    } else {
                        s.dropped
                    },
                    ..s
                },
                Step::Done(Delivery::Queued),
            )
        },
    }
}

/// A session after sending on a connection has failed. A connection that did not take
/// the message within the grace period is evicted, unless another has replaced it.
pub open spec fn send_failure(s: Session, conn: u64, timed_out: bool, now: u128) -> Session {
    if s.sink == Some(conn) {
        Session {
            sink: None,
            offline_since: Some(now),
            kick_reason: if timed_out {
                Some(KICK_SLOW@)
            } else {
                s.kick_reason
            },
            ..s
        }
    } else {
        s
    }
}

/// The tasks of subscriptions.
pub open spec fn tasks_of(subs: Map<Seq<char>, Sub>) -> Set<u64> {
    Set::new(|t: u64| exists|f: Seq<char>| #[trigger] subs.dom().contains(f) && subs[f].task == t)
}

/// The state of one session.
pub struct SessionState {
    client_id: String,
    identity: String,
    epoch: u64,
    sink: Option<u64>,
    kick: Option<u64>,
    kick_reason: Option<&'static str>,
    subs: StrMap<Sub>,
    queue: VecDeque<(String, Vec<u8>)>,
    dropped: u64,
    offline_since: Option<u128>,
    pkid: u16,
    durable: bool,
    max_queue: usize,
}

impl View for SessionState {
    type V = Session;

    closed spec fn view(&self) -> Session {
        Session {
            client_id: self.client_id@,
            identity: self.identity@,
            epoch: self.epoch,
            sink: self.sink,
            kick: self.kick,
            kick_reason: text::opt_text(self.kick_reason),
            subs: self.subs@,
            queue: messages(self.queue@),
            dropped: self.dropped,
            offline_since: self.offline_since,
            pkid: self.pkid,
            durable: self.durable,
        }
    }
}

impl SessionState {
    /// The queue keeps to its limit.
    pub closed spec fn wf(&self) -> bool {
        self.subs.wf() && self.queue@.len() <= self.max_queue
    }

    /// How many messages the queue holds at most.
    pub closed spec fn limit(&self) -> usize {
        self.max_queue
    }

    pub fn new(
        client_id: &str,
        identity: &str,
        max_queue: usize,
        queue: VecDeque<(String, Vec<u8>)>,
        durable: bool,
    ) -> (r: Self)
        requires
            queue@.len() <= max_queue,
        ensures
            r.wf(),
            r.limit() == max_queue,
            r@ == fresh_session(client_id@, identity@, messages(queue@), durable),
    {
        SessionState {
            client_id: client_id.to_owned(),
            identity: identity.to_owned(),
            epoch: 0,
            sink: None,
            kick: None,
            kick_reason: None,
            subs: StrMap::new(),
            queue,
            dropped: 0,
            offline_since: None,
            pkid: 1,
            durable,
            max_queue,
        }
    }

    /// A session never holds more messages than its limit.
    pub proof fn lemma_queue_keeps_to_limit(&self)
        requires
            self.wf(),
        ensures
            self@.queue.len() <= self.limit(),
    {
    }

    pub fn client_id(&self) -> (r: &str)
        ensures
            r@ == self@.client_id,
    {
        self.client_id.as_str()
    }

    pub fn identity(&self) -> (r: &str)
        ensures
            r@ == self@.identity,
    {
        self.identity.as_str()
    }

    pub fn is_durable(&self) -> (r: bool)
        ensures
            r == self@.durable,
    {
        self.durable
    }

    pub fn epoch(&self) -> (r: u64)
        ensures
            r == self@.epoch,
    {
        self.epoch
    }

    pub fn is_offline(&self) -> (r: bool)
        ensures
            r == (self@.sink is None),
    {
        self.sink.is_none()
    }

    pub fn queue_len(&self) -> (r: usize)
        ensures
            r == self@.queue.len(),
    {
        self.queue.len()
    }

    pub fn dropped(&self) -> (r: u64)
        ensures
            r == self@.dropped,
    {
        self.dropped
    }

    /// Why the current connection was kicked (consumed on read).
    pub fn take_kick_reason(&mut self) -> (r: Option<&'static str>)
        requires
            old(self).wf(),
        ensures
            final(self).wf(),
            final(self).limit() == old(self).limit(),
            text::opt_text(r) == old(self)@.kick_reason,
            final(self)@ == (Session { kick_reason: None, ..old(self)@ }),
    {
        let r = self.kick_reason;
        self.kick_reason = None;
        r
    }

    /// A packet id for a message to the client; never 0.
    pub fn next_pkid(&mut self) -> (r: u16)
        requires
            old(self).wf(),
        ensures
            final(self).wf(),
            final(self).limit() == old(self).limit(),
            r != 0,
            r == packet_id(old(self)@.pkid).0,
            final(self)@ == (Session { pkid: packet_id(old(self)@.pkid).1, ..old(self)@ }),
    {
        let id: u16 = if self.pkid == 0 {
            1
        } else {
            self.pkid
        };
        self.pkid = id.wrapping_add(1);
        id
    }

    /// Gives the session to a connection; hands back the connection to be kicked, the
    /// epoch and the backlog.
    pub fn attach_conn(&mut self, identity: &str, conn: u64) -> (r: (
        Option<u64>,
        u64,
        VecDeque<(String, Vec<u8>)>,
    ))
        requires
            old(self).wf(),
        ensures
            final(self).wf(),
            final(self).limit() == old(self).limit(),
            final(self)@ == taken_over(old(self)@, identity@, conn),
            r.0 == old(self)@.kick,
            r.1 == final(self)@.epoch,
            messages(r.2@) == old(self)@.queue,
    {
        let previous = self.kick;
        if previous.is_some() {
            self.kick_reason = Some(KICK_TAKEOVER);
        }
        self.identity = identity.to_owned();
        self.epoch = self.epoch.wrapping_add(1);
        self.sink = Some(conn);
        self.kick = Some(conn);
        self.offline_since = None;
        let mut backlog: VecDeque<(String, Vec<u8>)> = VecDeque::new();
        std::mem::swap(&mut backlog, &mut self.queue);
        assert(self@.queue =~= Seq::<(Seq<char>, Seq<u8>)>::empty());
        (previous, self.epoch, backlog)
    }

    /// Ends a connection; false if it was already superseded.
    pub fn detach_conn(&mut self, epoch: u64, now: u128) -> (r: bool)
        requires
            old(self).wf(),
        ensures
            final(self).wf(),
            final(self).limit() == old(self).limit(),
            r == (old(self)@.epoch == epoch),
            final(self)@ == (if r {
                gone_offline(old(self)@, now)
            } else {
                old(self)@
            }),
    {
        if self.epoch != epoch {
            return false;
        }
        self.sink = None;
        self.kick = None;
        self.offline_since = Some(now);
        true
    }

    /// Kicks the current connection, if any, and hands it back.
    pub fn kick_current(&mut self, reason: &'static str) -> (r: Option<u64>)
        requires
            old(self).wf(),
        ensures
            final(self).wf(),
            final(self).limit() == old(self).limit(),
            r == old(self)@.kick,
            final(self)@ == kicked(old(self)@, reason@),
    {
        if self.kick.is_some() {
            self.kick_reason = Some(reason);
        }
        self.kick
    }

    /// Marks the session offline as of `now`, with nobody to kick.
    pub fn park(&mut self, now: u128)
        requires
            old(self).wf(),
        ensures
            final(self).wf(),
            final(self).limit() == old(self).limit(),
            final(self)@ == gone_offline(old(self)@, now),
    {
        self.sink = None;
        self.kick = None;
        self.offline_since = Some(now);
    }

    pub fn expired(&self, expiry: u128, now: u128) -> (r: bool)
        ensures
            r == is_expired(self@, expiry, now),
    {
        match self.offline_since {
            Some(t) => now >= t && now - t > expiry,
            None => false,
        }
    }

    /// Adds a subscription; hands back the task of the one it replaces.
    pub fn insert_sub(&mut self, filter: String, sub: Sub) -> (r: Option<u64>)
        requires
            old(self).wf(),
        ensures
            final(self).wf(),
            final(self).limit() == old(self).limit(),
            final(self)@ == (Session { subs: old(self)@.subs.insert(filter@, sub), ..old(self)@ }),
            r == (if old(self)@.subs.dom().contains(filter@) {
                Some(old(self)@.subs[filter@].task)
            } else {
                None
            }),
    {
        match self.subs.insert(filter, sub) {
            Some(previous) => Some(previous.task),
            None => None,
        }
    }

    /// Takes a subscription out; hands back its task.
    pub fn remove_sub(&mut self, filter: &str) -> (r: Option<u64>)
        requires
            old(self).wf(),
        ensures
            final(self).wf(),
            final(self).limit() == old(self).limit(),
            final(self)@ == (Session { subs: old(self)@.subs.remove(filter@), ..old(self)@ }),
            r == (if old(self)@.subs.dom().contains(filter@) {
                Some(old(self)@.subs[filter@].task)
            } else {
                None
            }),
    {
        match self.subs.remove(filter) {
            Some(previous) => Some(previous.task),
            None => None,
        }
    }

    /// Takes all subscriptions out; hands back their tasks.
    pub fn abort_subs(&mut self) -> (r: Vec<u64>)
        requires
            old(self).wf(),
        ensures
            final(self).wf(),
            final(self).limit() == old(self).limit(),
            final(self)@ == (Session { subs: Map::empty(), ..old(self)@ }),
            r@.to_set() == tasks_of(old(self)@.subs),
    {
        let n = self.subs.len();
        let mut tasks: Vec<u64> = Vec::new();
        let mut i: usize = 0;
        let ghost subs = self.subs@;
        let ghost ks = self.subs.keys();
        proof {
            self.subs.lemma_keys();
        }
        while i < n
            invariant
                self.subs.wf(),
                n == ks.len(),
                ks == self.subs.keys(),
                subs == self.subs@,
                i <= n,
                tasks@.len() == i,
                forall|k: int| 0 <= k < i ==> #[trigger] tasks@[k] == subs[ks[k]].task,
            decreases n - i,
        {
            let (_, sub) = self.subs.entry(i);
            tasks.push(sub.task);
            i = i + 1;
        }
        proof {
            self.subs.lemma_keys();
            assert forall|t: u64| #[trigger] tasks@.to_set().contains(t) <==> tasks_of(
                subs,
            ).contains(t) by {
                if tasks@.contains(t) {
                    let k = tasks@.index_of(t);
                    assert(tasks@[k] == subs[ks[k]].task);
                    assert(subs.dom().contains(ks[k]));
                }
                if tasks_of(subs).contains(t) {
                    let f = choose|f: Seq<char>| #[trigger]
                        subs.dom().contains(f) && subs[f].task == t;
                    assert(ks.contains(f));
                    let k = ks.index_of(f);
                    assert(tasks@[k] == t);
                }
            }
            assert(tasks@.to_set() =~= tasks_of(subs));
        }
        self.subs = StrMap::new();
        tasks
    }

    /// Starts the delivery of a message.
    pub fn deliver(&mut self, topic: &str, payload: &[u8], qos: QoS) -> (r: Step)
        requires
            old(self).wf(),
        ensures
            final(self).wf(),
            final(self).limit() == old(self).limit(),
            (final(self)@, r) == deliver_step(
                old(self)@,
                old(self).limit() as nat,
                topic@,
                payload@,
                qos,
            ),
    {
        if let Some(conn) = self.sink {
            return if qos == QoS::AtMostOnce {
                Step::Send(conn, 0)
            } else {
                Step::Send(conn, self.next_pkid())
            };
        }
        if qos == QoS::AtMostOnce || self.max_queue == 0 {
            return Step::Done(Delivery::Dropped);
        }
        let ghost before = self@.queue;
        if self.queue.len() >= self.max_queue {
            self.queue.pop_front();
            self.dropped = self.dropped.wrapping_add(1);
            assert(self@.queue =~= before.skip(1));
        }
        let ghost kept = self@.queue;
        let copy = codec::copy_range(payload, 0, payload.len());
        assert(copy@ =~= payload@);
        self.queue.push_back((topic.to_owned(), copy));
        assert(self@.queue =~= kept.push((topic@, payload@)));
        Step::Done(Delivery::Queued)
    }

    /// Takes note that sending on a connection has failed; hands back whether the
    /// connection is evicted as too slow, and whom to kick.
    pub fn send_failed(&mut self, conn: u64, timed_out: bool, now: u128) -> (r: (
        bool,
        Option<u64>,
    ))
        requires
            old(self).wf(),
        ensures
            final(self).wf(),
            final(self).limit() == old(self).limit(),
            final(self)@ == send_failure(old(self)@, conn, timed_out, now),
            r.0 == (timed_out && old(self)@.sink == Some(conn)),
            r.1 == (if r.0 {
                old(self)@.kick
            } else {
                None
            }),
    {
        let current = match self.sink {
            Some(c) => c == conn,
            None => false,
        };
        if !current {
            return (false, None);
        }
        self.sink = None;
        self.offline_since = Some(now);
        if timed_out {
            self.kick_reason = Some(KICK_SLOW);
            (true, self.kick)
        } else {
            (false, None)
        }
    }

    /// The bytes of the queue file; `None` where the session keeps none, or a message
    /// is too large for one.
    pub fn queue_file(&self) -> (r: Option<Vec<u8>>)
        ensures
            match r {
                Some(b) => self@.durable && codec::pairs_fit(self@.queue) && b@
                    == durable::queue_bytes(self@.queue),
                None => !self@.durable || !codec::pairs_fit(self@.queue),
            },
    {
        if !self.durable {
            return None;
        }
        match save_queue(&self.queue) {
            Ok(bytes) => Some(bytes),
            Err(_) => None,
        }
    }

    /// The subscriptions as they are kept across a restart; `None` where the session
    /// keeps nothing.
    pub fn subs_file(&self) -> (r: Option<SubsFile>)
        requires
            self.wf(),
        ensures
            match r {
                Some(f) => self@.durable && f@.client_id == self@.client_id && f@.identity
                    == self@.identity && lists_subs(self@.subs, f@.subs),
                None => !self@.durable,
            },
    {
        if !self.durable {
            return None;
        }
        let n = self.subs.len();
        let mut subs: Vec<(String, QoS)> = Vec::new();
        let mut i: usize = 0;
        let ghost ks = self.subs.keys();
        proof {
            self.subs.lemma_keys();
        }
        while i < n
            invariant
                self.subs.wf(),
                n == ks.len(),
                ks == self.subs.keys(),
                i <= n,
                subs@.len() == i,
                forall|k: int|
                    0 <= k < i ==> (#[trigger] subs@[k]).0@ == ks[k] && self.subs@.dom().contains(
                        ks[k],
                    ) && subs@[k].1 == self.subs@[ks[k]].qos,
            decreases n - i,
        {
            let (filter, sub) = self.subs.entry(i);
            subs.push((filter.clone(), sub.qos));
            i = i + 1;
        }
        proof {
            let list = packet::asked(subs@);
            assert forall|i: int| 0 <= i < list.len() implies self@.subs.dom().contains(
                (#[trigger] list[i]).0,
            ) && self@.subs[list[i].0].qos == list[i].1 by {
                assert(subs@[i].0@ == ks[i]);
            }
            assert forall|i: int, j: int| 0 <= i < j < list.len() implies (#[trigger] list[i]).0
                != (#[trigger] list[j]).0 by {
                assert(subs@[i].0@ == ks[i] && subs@[j].0@ == ks[j]);
            }
            assert forall|f: Seq<char>| #[trigger] self@.subs.dom().contains(f) implies exists|
                i: int,
            |
                0 <= i < list.len() && (#[trigger] list[i]).0 == f by {
                assert(ks.contains(f));
                let j = ks.index_of(f);
                assert(subs@[j].0@ == ks[j]);
                assert(list[j].0 == f);
            }
        }
        Some(SubsFile { client_id: self.client_id.clone(), identity: self.identity.clone(), subs })
    }
}

/// A list of all subscriptions, each once, with the quality of service granted.
pub open spec fn lists_subs(subs: Map<Seq<char>, Sub>, list: Seq<(Seq<char>, QoS)>) -> bool {
    &&& forall|i: int|
        0 <= i < list.len() ==> subs.dom().contains((#[trigger] list[i]).0) && subs[list[i].0].qos
            == list[i].1
    &&& forall|i: int, j: int| 0 <= i < j < list.len() ==> (#[trigger] list[i]).0 != (#[trigger] list[j]).0
    &&& forall|f: Seq<char>| #[trigger]
        subs.dom().contains(f) ==> exists|i: int|
            0 <= i < list.len() && (#[trigger] list[i]).0 == f
}

/// Above QoS 0 no message is lost to a session with a queue: it is sent or queued.
pub proof fn law_qos1_is_sent_or_queued(
    s: Session,
    max_queue: nat,
    topic: Seq<char>,
    payload: Seq<u8>,
    qos: QoS,
)
    requires
        qos != QoS::AtMostOnce,
        max_queue > 0,
    ensures
        ({
            let (next, step) = deliver_step(s, max_queue, topic, payload, qos);
            match step {
                Step::Send(conn, pkid) => s.sink == Some(conn) && pkid != 0,
                Step::Done(d) => s.sink is None && d == Delivery::Queued && next.queue.len() > 0
                    && next.queue.last() == (topic, payload),
            }
        }),
{
}

/// The queue of a session never grows past its limit.
pub proof fn law_queue_is_bounded(
    s: Session,
    max_queue: nat,
    topic: Seq<char>,
    payload: Seq<u8>,
    qos: QoS,
)
    requires
        s.queue.len() <= max_queue,
    ensures
        deliver_step(s, max_queue, topic, payload, qos).0.queue.len() <= max_queue,
{
}

/// Of deliveries that time out on the same connection only the first evicts it; a
/// connection that has since taken over is not touched.
pub proof fn law_only_the_first_timeout_evicts(s: Session, conn: u64, now: u128, later: u128)
    ensures
        send_failure(send_failure(s, conn, true, now), conn, true, later) == send_failure(
            s,
            conn,
            true,
            now,
        ),
        s.sink != Some(conn) ==> send_failure(s, conn, true, now) == s,
{
}

/// After a failed send the message goes the offline way: the next step queues it (above
/// QoS 0), and does not send to the same connection again.
pub proof fn law_failed_send_goes_offline(
    s: Session,
    conn: u64,
    timed_out: bool,
    now: u128,
    max_queue: nat,
    topic: Seq<char>,
    payload: Seq<u8>,
    qos: QoS,
)
    requires
        s.sink == Some(conn),
        qos != QoS::AtMostOnce,
        max_queue > 0,
    ensures
        deliver_step(send_failure(s, conn, timed_out, now), max_queue, topic, payload, qos).1
            == Step::Done(Delivery::Queued),
{
}

/// The counter of packet ids after `n` of them.
pub open spec fn counter_after(pkid: u16, n: nat) -> u16
    decreases n,
{
    if n == 0 {
        pkid
    } else {
        packet_id(counter_after(pkid, (n - 1) as nat)).1
    }
}

/// The packet id that comes `n` ids after the next one.
pub open spec fn nth_packet_id(pkid: u16, n: nat) -> u16 {
    packet_id(counter_after(pkid, n)).0
}

proof fn lemma_nth_packet_id(pkid: u16, n: nat)
    ensures
        nth_packet_id(pkid, n) == (packet_id(pkid).0 - 1 + n) % 65535 + 1,
    decreases n,
{
    if n > 0 {
        lemma_nth_packet_id(pkid, (n - 1) as nat);
    }
}

/// Packet ids are never 0, and 65535 of them pass before one comes again.
pub proof fn law_packet_ids(pkid: u16, i: nat, j: nat)
    requires
        i < j < i + 65535,
    ensures
        nth_packet_id(pkid, i) != 0,
        nth_packet_id(pkid, i) != nth_packet_id(pkid, j),
{
    lemma_nth_packet_id(pkid, i);
    lemma_nth_packet_id(pkid, j);
}

/// A session after deliveries of messages above QoS 0, one after the other.
pub open spec fn after_deliveries(
    s: Session,
    max_queue: nat,
    list: Seq<(Seq<char>, Seq<u8>)>,
    qos: QoS,
) -> Session
    decreases list.len(),
{
    if list.len() == 0 {
        s
    } else {
        let before = after_deliveries(s, max_queue, list.drop_last(), qos);
        deliver_step(before, max_queue, list.last().0, list.last().1, qos).0
    }
}

/// The last `n` messages of a list, or all where there are no more.
pub open spec fn newest(list: Seq<(Seq<char>, Seq<u8>)>, n: nat) -> Seq<(Seq<char>, Seq<u8>)> {
    if list.len() <= n {
        list
    } else {
        list.skip(list.len() - n)
    }
}

/// The queue of an offline session holds the newest messages up to its limit, oldest
/// first, in the order in which they came.
pub proof fn law_offline_queue_keeps_order(
    s: Session,
    max_queue: nat,
    list: Seq<(Seq<char>, Seq<u8>)>,
    qos: QoS,
)
    requires
        s.sink is None,
        s.queue.len() <= max_queue,
        max_queue > 0,
        qos != QoS::AtMostOnce,
    ensures
        after_deliveries(s, max_queue, list, qos).queue == newest(s.queue + list, max_queue),
        after_deliveries(s, max_queue, list, qos).sink is None,
        after_deliveries(s, max_queue, list, qos).subs == s.subs,
        after_deliveries(s, max_queue, list, qos).client_id == s.client_id,
    decreases list.len(),
{
    if list.len() == 0 {
        assert(s.queue + list =~= s.queue);
    } else {
        law_offline_queue_keeps_order(s, max_queue, list.drop_last(), qos);
        assert(s.queue + list =~= (s.queue + list.drop_last()).push(list.last()));
        assert(after_deliveries(s, max_queue, list, qos).queue =~= newest(
            s.queue + list,
            max_queue,
        ));
    }
}

} // verus!
