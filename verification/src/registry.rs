//! The sessions of a node: which client id has which session, and what attaching,
//! detaching, expiry and kicks do to them.
//!
//! A session is known by a number. One that a clean reconnect has replaced stays known,
//! outside the list of clients, until its last connection has detached.

use crate::durable::{self, load_queue, SubsFile};
use crate::packet::QoS;
use crate::prefix;
use crate::registry_laws;
use crate::session::{self, Session, SessionState, Step, Sub, KICK_REQUESTED, KICK_TAKEOVER};
use crate::strmap::StrMap;
use crate::text;
use std::collections::{HashMap, VecDeque};
use vstd::prelude::*;
use vstd::string::*;

verus! {

broadcast use vstd::std_specs::hash::group_hash_axioms;

/// All sessions as plain values.
pub struct Sessions {
    /// The session of each client id.
    pub clients: Map<Seq<char>, u64>,
    /// Every session that is known.
    pub all: Map<u64, Session>,
    /// How many sessions there have been.
    pub made: u64,
}

/// The settings of a registry.
pub struct RegistryRules {
    /// How many messages an offline queue holds.
    pub max_queue: usize,
    /// Whether persistent sessions are kept in files.
    pub durable: bool,
}

/// What attaching a connection comes to, as plain values.
pub struct Attached {
    pub session: u64,
    pub session_present: bool,
    pub epoch: u64,
    pub backlog: Seq<(Seq<char>, Seq<u8>)>,
    pub kicked: Option<u64>,
    pub aborted: Set<u64>,
    pub discard_queue: bool,
    pub discard_subs: bool,
}

/// What attaching a connection comes to.
pub struct AttachOutcome {
    pub session: u64,
    /// MQTT-3.2.2-2: true iff cleanSession=0 and stored state existed.
    pub session_present: bool,
    /// Identifies this connection within the session; pass back to `detach`.
    pub epoch: u64,
    /// QoS 1 messages queued while the client was offline.
    pub backlog: VecDeque<(String, Vec<u8>)>,
    /// The connection to be told that it was kicked.
    pub kicked: Option<u64>,
    /// The forwarding tasks to be ended.
    pub aborted: Vec<u64>,
    /// Whether the queue file is to be removed.
    pub discard_queue: bool,
    /// Whether the file with subscriptions is to be removed.
    pub discard_subs: bool,
}

impl View for AttachOutcome {
    type V = Attached;

    open spec fn view(&self) -> Attached {
        Attached {
            session: self.session,
            session_present: self.session_present,
            epoch: self.epoch,
            backlog: session::messages(self.backlog@),
            kicked: self.kicked,
            aborted: self.aborted@.to_set(),
            discard_queue: self.discard_queue,
            discard_subs: self.discard_subs,
        }
    }
}

/// The queue that a new session finds in its file; a damaged file counts as empty.
pub open spec fn file_queue(file: Option<Seq<u8>>, max_queue: nat) -> Seq<(Seq<char>, Seq<u8>)> {
    match file {
        Some(data) => match durable::loaded_queue(data, max_queue) {
            Ok(q) => q,
            Err(_) => Seq::empty(),
        },
        None => Seq::empty(),
    }
}

/// A session that a clean reconnect replaces: its connection is kicked and its
/// subscriptions end.
pub open spec fn replaced(s: Session) -> Session {
    Session { subs: Map::empty(), ..session::kicked(s, KICK_TAKEOVER@) }
}

/// The sessions after one of them was replaced: it stays only while it has a connection.
pub open spec fn without(all: Map<u64, Session>, h: u64) -> Map<u64, Session> {
    if all[h].kick is Some {
        all.insert(h, replaced(all[h]))
    } else {
        all.remove(h)
    }
}

/// Attaching a connection to the session of a client id: a persistent one is resumed, a
/// clean one starts anew and discards what was stored.
pub open spec fn attach_result(
    reg: Sessions,
    rules: RegistryRules,
    client_id: Seq<char>,
    identity: Seq<char>,
    clean: bool,
    conn: u64,
    file: Option<Seq<u8>>,
) -> (Sessions, Attached) {
    let known = reg.clients.dom().contains(client_id);
    let h = reg.clients[client_id];
    if known && !clean {
        let s = reg.all[h];
        let next = session::taken_over(s, identity, conn);
        (
            Sessions { all: reg.all.insert(h, next), ..reg },
            Attached {
                session: h,
                session_present: true,
                epoch: next.epoch,
                backlog: s.queue,
                kicked: s.kick,
                aborted: Set::empty(),
                discard_queue: s.durable,
                discard_subs: false,
            },
        )
    } else {
        let queue = if clean {
            Seq::empty()
        } else {
            file_queue(file, rules.max_queue as nat)
        };
        let s = session::fresh_session(client_id, identity, queue, rules.durable && !clean);
        let next = session::taken_over(s, identity, conn);
        let others = if known {
            without(reg.all, h)
        } else {
            reg.all
        };
        (
            Sessions {
                clients: reg.clients.insert(client_id, reg.made),
                all: others.insert(reg.made, next),
                made: (reg.made + 1) as u64,
            },
            Attached {
                session: reg.made,
                session_present: !known && !clean && rules.durable && file is Some,
                epoch: next.epoch,
                backlog: queue,
                kicked: if known {
                    reg.all[h].kick
                } else {
                    None
                },
                aborted: if known {
                    session::tasks_of(reg.all[h].subs)
                } else {
                    Set::empty()
                },
                discard_queue: rules.durable,
                discard_subs: rules.durable && clean,
            },
        )
    }
}

/// Whether a session is the one of its client id.
pub open spec fn registered(reg: Sessions, h: u64) -> bool {
    reg.clients.dom().contains(reg.all[h].client_id) && reg.clients[reg.all[h].client_id] == h
}

/// The sessions after a connection has ended. A superseded connection changes nothing;
/// a clean session ends with its connection, a persistent one stays while it is the one
/// of its client id.
pub open spec fn detach_result(
    reg: Sessions,
    h: u64,
    epoch: u64,
    clean: bool,
    now: u128,
) -> Sessions {
    if !reg.all.dom().contains(h) || reg.all[h].epoch != epoch {
        reg
    } else if clean && registered(reg, h) {
        Sessions {
            clients: reg.clients.remove(reg.all[h].client_id),
            all: reg.all.remove(h),
            ..reg
        }
    } else if clean || !registered(reg, h) {
        Sessions { all: reg.all.remove(h), ..reg }
    } else {
        Sessions { all: reg.all.insert(h, session::gone_offline(reg.all[h], now)), ..reg }
    }
}

/// What the end of a connection asks for.
pub struct DetachOutcome {
    /// False if a newer connection had taken the session over.
    pub detached: bool,
    /// The forwarding tasks to be ended.
    pub aborted: Vec<u64>,
    /// Whether the session's files are to be removed.
    pub discard_files: bool,
}

/// A client whose offline session has expired.
pub open spec fn client_expired(
    reg: Sessions,
    client_id: Seq<char>,
    expiry: u128,
    now: u128,
) -> bool {
    reg.clients.dom().contains(client_id) && session::is_expired(
        reg.all[reg.clients[client_id]],
        expiry,
        now,
    )
}

/// An expired session that was dropped.
pub struct SweptSession {
    pub client_id: String,
    /// The forwarding tasks to be ended.
    pub aborted: Vec<u64>,
    /// Whether the session's files are to be removed.
    pub discard_files: bool,
}

/// Counts over all clients, taken modulo 2^64 where they are sums.
pub open spec fn offline_count(reg: Sessions, ids: Seq<Seq<char>>) -> nat
    decreases ids.len(),
{
    if ids.len() == 0 {
        0
    } else {
        offline_count(reg, ids.drop_last()) + (if reg.all[reg.clients[ids.last()]].sink is None {
            1nat
        } else {
            0nat
        })
    }
}

pub open spec fn queued_count(reg: Sessions, ids: Seq<Seq<char>>) -> nat
    decreases ids.len(),
{
    if ids.len() == 0 {
        0
    } else {
        queued_count(reg, ids.drop_last()) + reg.all[reg.clients[ids.last()]].queue.len()
    }
}

pub open spec fn dropped_count(reg: Sessions, ids: Seq<Seq<char>>) -> nat
    decreases ids.len(),
{
    if ids.len() == 0 {
        0
    } else {
        dropped_count(reg, ids.drop_last()) + reg.all[reg.clients[ids.last()]].dropped as nat
    }
}

/// The client ids, each once, in some order.
pub open spec fn enumerates(reg: Sessions, ids: Seq<Seq<char>>) -> bool {
    ids.no_duplicates() && forall|c: Seq<char>| #[trigger]
        reg.clients.dom().contains(c) <==> ids.contains(c)
}

/// The sessions with one of them changed.
pub open spec fn updated(reg: Sessions, h: u64, s: Session) -> Sessions {
    Sessions { all: reg.all.insert(h, s), ..reg }
}

/// Whether a failure to send evicts a connection as too slow: the sending has timed out,
/// and the connection is still the session's.
pub open spec fn evicts(reg: Sessions, session: u64, conn: u64, timed_out: bool) -> bool {
    timed_out && reg.all.dom().contains(session) && reg.all[session].sink == Some(conn)
}

/// The sessions after sending on a connection of one of them has failed.
pub open spec fn failed_send(
    reg: Sessions,
    session: u64,
    conn: u64,
    timed_out: bool,
    now: u128,
) -> Sessions {
    if reg.all.dom().contains(session) {
        updated(reg, session, session::send_failure(reg.all[session], conn, timed_out, now))
    } else {
        reg
    }
}

pub struct SessionRegistry {
    clients: StrMap<u64>,
    states: HashMap<u64, SessionState>,
    made: u64,
    max_queue: usize,
    durable: bool,
}

impl View for SessionRegistry {
    type V = Sessions;

    closed spec fn view(&self) -> Sessions {
        Sessions {
            clients: self.clients@,
            all: self.states@.map_values(|s: SessionState| s@),
            made: self.made,
        }
    }
}

impl SessionRegistry {
    spec fn states_wf(&self) -> bool {
        forall|h: u64| #[trigger]
            self.states@.dom().contains(h) ==> h < self.made && self.states@[h].wf()
                && self.states@[h].limit() == self.max_queue
    }

    spec fn clients_wf(&self) -> bool {
        forall|c: Seq<char>| #[trigger]
            self.clients@.dom().contains(c) ==> self.states@.dom().contains(self.clients@[c])
                && self.states@[self.clients@[c]]@.client_id == c
    }

    /// Every client id has a session of its own.
    pub closed spec fn wf(&self) -> bool {
        &&& self.clients.wf()
        &&& self.states_wf()
        &&& self.clients_wf()
    }

    pub closed spec fn rules(&self) -> RegistryRules {
        RegistryRules { max_queue: self.max_queue, durable: self.durable }
    }

    /// `durable` says whether persistent sessions are kept in files.
    pub fn new(max_queue: usize, durable: bool) -> (r: Self)
        ensures
            r.wf(),
            r.rules() == (RegistryRules { max_queue, durable }),
            r@.clients == Map::<Seq<char>, u64>::empty(),
            r@.all == Map::<u64, Session>::empty(),
            r@.made == 0,
    {
        let r = SessionRegistry {
            clients: StrMap::new(),
            states: HashMap::new(),
            made: 0,
            max_queue,
            durable,
        };
        assert(r@.all =~= Map::<u64, Session>::empty());
        r
    }

    /// How many sessions there have been: their numbers are not used again.
    pub fn made(&self) -> (r: u64)
        ensures
            r == self@.made,
    {
        self.made
    }

    /// Whether a session is known.
    pub fn knows(&self, session: u64) -> (r: bool)
        ensures
            r == self@.all.dom().contains(session),
    {
        self.states.contains_key(&session)
    }

    /// No session holds more messages than the registry allows.
    pub proof fn lemma_queues_keep_to_limit(&self)
        requires
            self.wf(),
        ensures
            forall|h: u64| #[trigger]
                self@.all.dom().contains(h) ==> self@.all[h].queue.len() <= self.rules().max_queue,
    {
        assert forall|h: u64| #[trigger] self@.all.dom().contains(h) implies self@.all[h].queue.len()
            <= self.rules().max_queue by {
            assert(self.states@.dom().contains(h));
            self.states@[h].lemma_queue_keeps_to_limit();
        }
    }

    /// A registry keeps its sessions coherent.
    pub proof fn lemma_coherent(&self)
        requires
            self.wf(),
        ensures
            registry_laws::coherent(self@),
    {
        assert forall|c: Seq<char>| #[trigger] self@.clients.dom().contains(c) implies self@.all.dom().contains(
            self@.clients[c],
        ) && self@.all[self@.clients[c]].client_id == c by {
            assert(self.clients@.dom().contains(c));
        }
    }

    /// Takes a state out, to be put back changed.
    fn take(&mut self, h: u64) -> (r: Option<SessionState>)
        ensures
            final(self).clients == old(self).clients,
            final(self).made == old(self).made,
            final(self).max_queue == old(self).max_queue,
            final(self).durable == old(self).durable,
            final(self).states@ == old(self).states@.remove(h),
            match r {
                Some(s) => old(self).states@.dom().contains(h) && s == old(self).states@[h],
                None => !old(self).states@.dom().contains(h),
            },
    {
        let r = self.states.remove(&h);
        assert(self.states@ =~= old(self).states@.remove(h));
        r
    }

    /// Attaches a connection to the session of a client id. `file` holds the bytes of
    /// the client's queue file, where there is one.
    pub fn attach(
        &mut self,
        client_id: &str,
        identity: &str,
        clean: bool,
        conn: u64,
        file: Option<&[u8]>,
    ) -> (r: AttachOutcome)
        requires
            old(self).wf(),
            old(self)@.made < u64::MAX,
        ensures
            final(self).wf(),
            final(self).rules() == old(self).rules(),
            (final(self)@, r@) == attach_result(
                old(self)@,
                old(self).rules(),
                client_id@,
                identity@,
                clean,
                conn,
                match file {
                    Some(data) => Some(data@),
                    None => None,
                },
            ),
    {
        let ghost start = self@;
        let existing: Option<u64> = match self.clients.get(client_id) {
            Some(h) => Some(*h),
            None => None,
        };
        if let Some(h) = existing {
            if !clean {
                return self.resume(h, identity, conn);
            }
        }
        let queue = match file {
            Some(data) => if clean {
                VecDeque::new()
            } else {
                match load_queue(data, self.max_queue) {
                    Ok(q) => q,
                    Err(_) => VecDeque::new(),
                }
            },
            None => VecDeque::new(),
        };
        let ghost file_bytes: Option<Seq<u8>> = match file {
            Some(data) => Some(data@),
            None => None,
        };
        assert(session::messages(queue@) =~= (if clean {
            Seq::empty()
        } else {
            file_queue(file_bytes, self.max_queue as nat)
        }));
        let session_present = existing.is_none() && !clean && self.durable && file.is_some();
        let (previous, aborted) = match existing {
            Some(h) => self.replace(h),
            None => (None, Vec::new()),
        };
        let ghost middle = self@;
        let h = self.made;
        let mut s = SessionState::new(
            client_id,
            identity,
            self.max_queue,
            queue,
            self.durable && !clean,
        );
        let (_, epoch, backlog) = s.attach_conn(identity, conn);
        let ghost sv = s@;
        self.states.insert(h, s);
        self.clients.insert(client_id.to_owned(), h);
        self.made = h + 1;
        let r = AttachOutcome {
            session: h,
            session_present,
            epoch,
            backlog,
            kicked: previous,
            aborted,
            discard_queue: self.durable,
            discard_subs: self.durable && clean,
        };
        proof {
            assert(self@.all =~= middle.all.insert(h, sv));
            assert(existing is None ==> r@.aborted =~= Set::<u64>::empty());
        }
        r
    }

    /// Gives a known session to a connection.
    fn resume(&mut self, h: u64, identity: &str, conn: u64) -> (r: AttachOutcome)
        requires
            old(self).wf(),
            old(self)@.all.dom().contains(h),
        ensures
            final(self).wf(),
            final(self).rules() == old(self).rules(),
            final(self)@ == updated(
                old(self)@,
                h,
                session::taken_over(old(self)@.all[h], identity@, conn),
            ),
            r@ == (Attached {
                session: h,
                session_present: true,
                epoch: session::taken_over(old(self)@.all[h], identity@, conn).epoch,
                backlog: old(self)@.all[h].queue,
                kicked: old(self)@.all[h].kick,
                aborted: Set::empty(),
                discard_queue: old(self)@.all[h].durable,
                discard_subs: false,
            }),
    {
        let mut outcome = AttachOutcome {
            session: h,
            session_present: true,
            epoch: 0,
            backlog: VecDeque::new(),
            kicked: None,
            aborted: Vec::new(),
            discard_queue: false,
            discard_subs: false,
        };
        if let Some(mut s) = self.take(h) {
            outcome.discard_queue = s.is_durable();
            let (kicked, epoch, backlog) = s.attach_conn(identity, conn);
            outcome.kicked = kicked;
            outcome.epoch = epoch;
            outcome.backlog = backlog;
            let ghost sv = s@;
            self.states.insert(h, s);
            assert(self@.all =~= old(self)@.all.insert(h, sv));
        }
        assert(outcome@.aborted =~= Set::<u64>::empty());
        outcome
    }

    /// Takes the session of a client out of service for a clean one; hands back whom to
    /// kick and which tasks to end.
    fn replace(&mut self, h: u64) -> (r: (Option<u64>, Vec<u64>))
        requires
            old(self).wf(),
            old(self)@.all.dom().contains(h),
        ensures
            final(self).clients == old(self).clients,
            final(self).made == old(self).made,
            final(self).max_queue == old(self).max_queue,
            final(self).durable == old(self).durable,
            final(self).states_wf(),
            forall|k: u64|
                k != h ==> #[trigger] final(self).states@.dom().contains(k) == old(
                    self,
                ).states@.dom().contains(k),
            forall|k: u64|
                k != h && final(self).states@.dom().contains(k) ==> #[trigger] final(self).states@[k]
                    == old(self).states@[k],
            final(self)@.all == without(old(self)@.all, h),
            r.0 == old(self)@.all[h].kick,
            r.1@.to_set() == session::tasks_of(old(self)@.all[h].subs),
    {
        if let Some(mut s) = self.take(h) {
            let previous = s.kick_current(KICK_TAKEOVER);
            let aborted = s.abort_subs();
            let ghost sv = s@;
            if previous.is_some() {
                self.states.insert(h, s);
                assert(self@.all =~= old(self)@.all.insert(h, sv));
            } else {
                assert(self@.all =~= old(self)@.all.remove(h));
            }
            (previous, aborted)
        } else {
            (None, Vec::new())
        }
    }

    /// Ends a connection. `clean` sessions are destroyed; persistent ones stay, queueing,
    /// until they expire.
    pub fn detach(&mut self, session: u64, epoch: u64, clean: bool, now: u128) -> (r:
        DetachOutcome)
        requires
            old(self).wf(),
        ensures
            final(self).wf(),
            final(self).rules() == old(self).rules(),
            final(self)@ == detach_result(old(self)@, session, epoch, clean, now),
            r.detached == (old(self)@.all.dom().contains(session) && old(self)@.all[session].epoch
                == epoch),
            r.aborted@.to_set() == (if r.detached && clean {
                session::tasks_of(old(self)@.all[session].subs)
            } else {
                Set::empty()
            }),
            r.discard_files == (r.detached && clean && old(self)@.all[session].durable),
    {
        let ghost start = self@;
        let mut outcome = DetachOutcome {
            detached: false,
            aborted: Vec::new(),
            discard_files: false,
        };
        assert(outcome.aborted@.to_set() =~= Set::<u64>::empty());
        let mut s = match self.take(session) {
            Some(s) => s,
            None => {
                assert(self.states@ =~= old(self).states@);
                return outcome;
            },
        };
        let ghost before = s@;
        if !s.detach_conn(epoch, now) {
            let ghost sv = s@;
            self.states.insert(session, s);
            assert(self@.all =~= start.all.insert(session, sv));
            assert(self@.all =~= start.all);
            assert(self@ == start);
            return outcome;
        }
        outcome.detached = true;
        let own = match self.clients.get(s.client_id()) {
            Some(h) => *h == session,
            None => false,
        };
        if clean {
            outcome.aborted = s.abort_subs();
            outcome.discard_files = s.is_durable();
            if own {
                self.clients.remove(s.client_id());
            }
            assert(self@.all =~= start.all.remove(session));
        } else if own {
            let ghost sv = s@;
            self.states.insert(session, s);
            assert(self@.all =~= start.all.insert(session, sv));
        } else {
            assert(self@.all =~= start.all.remove(session));
        }
        outcome
    }

    /// Kicks the live connection of a client id, if this node holds one; hands it back.
    pub fn kick(&mut self, client_id: &str) -> (r: Option<u64>)
        requires
            old(self).wf(),
        ensures
            final(self).wf(),
            final(self).rules() == old(self).rules(),
            r == (if old(self)@.clients.dom().contains(client_id@) {
                old(self)@.all[old(self)@.clients[client_id@]].kick
            } else {
                None
            }),
            final(self)@ == (if old(self)@.clients.dom().contains(client_id@) {
                updated(
                    old(self)@,
                    old(self)@.clients[client_id@],
                    session::kicked(
                        old(self)@.all[old(self)@.clients[client_id@]],
                        KICK_REQUESTED@,
                    ),
                )
            } else {
                old(self)@
            }),
    {
        let h: u64 = match self.clients.get(client_id) {
            Some(h) => *h,
            None => {
                return None;
            },
        };
        if let Some(mut s) = self.take(h) {
            let r = s.kick_current(KICK_REQUESTED);
            let ghost sv = s@;
            self.states.insert(h, s);
            assert(self@.all =~= old(self)@.all.insert(h, sv));
            r
        } else {
            None
        }
    }

    /// Why the current connection of a session was kicked (consumed on read).
    pub fn take_kick_reason(&mut self, session: u64) -> (r: Option<&'static str>)
        requires
            old(self).wf(),
        ensures
            final(self).wf(),
            final(self).rules() == old(self).rules(),
            text::opt_text(r) == (if old(self)@.all.dom().contains(session) {
                old(self)@.all[session].kick_reason
            } else {
                None
            }),
            final(self)@ == (if old(self)@.all.dom().contains(session) {
                updated(
                    old(self)@,
                    session,
                    Session { kick_reason: None, ..old(self)@.all[session] },
                )
            } else {
                old(self)@
            }),
    {
        match self.take(session) {
            Some(mut s) => {
                let r = s.take_kick_reason();
                let ghost sv = s@;
                self.states.insert(session, s);
                assert(self@.all =~= old(self)@.all.insert(session, sv));
                r
            },
            None => {
                assert(self.states@ =~= old(self).states@);
                None
            },
        }
    }

    /// A packet id for a message to the client of a session; `None` for a session that
    /// is no longer known.
    pub fn next_pkid(&mut self, session: u64) -> (r: Option<u16>)
        requires
            old(self).wf(),
        ensures
            final(self).wf(),
            final(self).rules() == old(self).rules(),
            r == (if old(self)@.all.dom().contains(session) {
                Some(session::packet_id(old(self)@.all[session].pkid).0)
            } else {
                None
            }),
            final(self)@ == (if old(self)@.all.dom().contains(session) {
                updated(
                    old(self)@,
                    session,
                    Session {
                        pkid: session::packet_id(old(self)@.all[session].pkid).1,
                        ..old(self)@.all[session]
                    },
                )
            } else {
                old(self)@
            }),
    {
        match self.take(session) {
            Some(mut s) => {
                let r = s.next_pkid();
                let ghost sv = s@;
                self.states.insert(session, s);
                assert(self@.all =~= old(self)@.all.insert(session, sv));
                Some(r)
            },
            None => {
                assert(self.states@ =~= old(self).states@);
                None
            },
        }
    }

    /// Adds a subscription to a session; hands back the task to be ended: that of the
    /// subscription it replaces, or its own where the session is no longer known.
    pub fn insert_sub(&mut self, session: u64, filter: String, sub: Sub) -> (r: Option<u64>)
        requires
            old(self).wf(),
        ensures
            final(self).wf(),
            final(self).rules() == old(self).rules(),
            r == (if !old(self)@.all.dom().contains(session) {
                Some(sub.task)
            } else if old(self)@.all[session].subs.dom().contains(filter@) {
                Some(old(self)@.all[session].subs[filter@].task)
            } else {
                None
            }),
            final(self)@ == (if old(self)@.all.dom().contains(session) {
                updated(
                    old(self)@,
                    session,
                    Session {
                        subs: old(self)@.all[session].subs.insert(filter@, sub),
                        ..old(self)@.all[session]
                    },
                )
            } else {
                old(self)@
            }),
    {
        match self.take(session) {
            Some(mut s) => {
                let r = s.insert_sub(filter, sub);
                let ghost sv = s@;
                self.states.insert(session, s);
                assert(self@.all =~= old(self)@.all.insert(session, sv));
                r
            },
            None => {
                assert(self.states@ =~= old(self).states@);
                Some(sub.task)
            },
        }
    }

    /// Takes a subscription out of a session; hands back the task to be ended.
    pub fn remove_sub(&mut self, session: u64, filter: &str) -> (r: Option<u64>)
        requires
            old(self).wf(),
        ensures
            final(self).wf(),
            final(self).rules() == old(self).rules(),
            r == (if old(self)@.all.dom().contains(session)
                && old(self)@.all[session].subs.dom().contains(filter@) {
                Some(old(self)@.all[session].subs[filter@].task)
            } else {
                None
            }),
            final(self)@ == (if old(self)@.all.dom().contains(session) {
                updated(
                    old(self)@,
                    session,
                    Session {
                        subs: old(self)@.all[session].subs.remove(filter@),
                        ..old(self)@.all[session]
                    },
                )
            } else {
                old(self)@
            }),
    {
        match self.take(session) {
            Some(mut s) => {
                let r = s.remove_sub(filter);
                let ghost sv = s@;
                self.states.insert(session, s);
                assert(self@.all =~= old(self)@.all.insert(session, sv));
                r
            },
            None => {
                assert(self.states@ =~= old(self).states@);
                None
            },
        }
    }

    /// Starts the delivery of a message to a session; one that is no longer known drops
    /// it.
    pub fn deliver(&mut self, session: u64, topic: &str, payload: &[u8], qos: QoS) -> (r: Step)
        requires
            old(self).wf(),
        ensures
            final(self).wf(),
            final(self).rules() == old(self).rules(),
            ({
                let (s, step) = session::deliver_step(
                    old(self)@.all[session],
                    old(self).rules().max_queue as nat,
                    topic@,
                    payload@,
                    qos,
                );
                if old(self)@.all.dom().contains(session) {
                    final(self)@ == updated(old(self)@, session, s) && r == step
                } else {
                    final(self)@ == old(self)@ && r == Step::Done(session::Delivery::Dropped)
                }
            }),
    {
        match self.take(session) {
            Some(mut s) => {
                let r = s.deliver(topic, payload, qos);
                let ghost sv = s@;
                self.states.insert(session, s);
                assert(self@.all =~= old(self)@.all.insert(session, sv));
                r
            },
            None => {
                assert(self.states@ =~= old(self).states@);
                Step::Done(session::Delivery::Dropped)
            },
        }
    }

    /// Takes note that sending on a connection of a session has failed; hands back
    /// whether the connection is evicted as too slow, and whom to kick.
    pub fn send_failed(&mut self, session: u64, conn: u64, timed_out: bool, now: u128) -> (r: (
        bool,
        Option<u64>,
    ))
        requires
            old(self).wf(),
        ensures
            final(self).wf(),
            final(self).rules() == old(self).rules(),
            r.0 == evicts(old(self)@, session, conn, timed_out),
            r.1 == (if r.0 {
                old(self)@.all[session].kick
            } else {
                None
            }),
            final(self)@ == failed_send(old(self)@, session, conn, timed_out, now),
    {
        match self.take(session) {
            Some(mut s) => {
                let r = s.send_failed(conn, timed_out, now);
                let ghost sv = s@;
                self.states.insert(session, s);
                assert(self@.all =~= old(self)@.all.insert(session, sv));
                r
            },
            None => {
                assert(self.states@ =~= old(self).states@);
                (false, None)
            },
        }
    }

    /// The client ids whose sessions have expired.
    fn expired_clients(&self, expiry: u128, now: u128) -> (r: Vec<String>)
        requires
            self.wf(),
        ensures
            text::texts(r@).no_duplicates(),
            forall|c: Seq<char>| #[trigger]
                text::texts(r@).contains(c) <==> client_expired(self@, c, expiry, now),
    {
        let n = self.clients.len();
        let mut gone: Vec<String> = Vec::new();
        let mut i: usize = 0;
        let ghost ks = self.clients.keys();
        proof {
            self.clients.lemma_keys();
            assert(text::texts(gone@) =~= Seq::<Seq<char>>::empty());
        }
        while i < n
            invariant
                self.wf(),
                ks == self.clients.keys(),
                ks.no_duplicates(),
                n == ks.len(),
                i <= n,
                text::texts(gone@).no_duplicates(),
                forall|c: Seq<char>| #[trigger]
                    text::texts(gone@).contains(c) <==> (ks.take(i as int).contains(c)
                        && client_expired(self@, c, expiry, now)),
            decreases n - i,
        {
            let (id, h) = self.clients.entry(i);
            let ghost before = text::texts(gone@);
            let old_enough = match self.states.get(h) {
                Some(s) => s.expired(expiry, now),
                None => false,
            };
            assert(old_enough == client_expired(self@, id@, expiry, now));
            proof {
                prefix::lemma_next_is_new(ks, i as int);
                prefix::lemma_take_next(ks, i as int);
            }
            if old_enough {
                gone.push(id.clone());
                proof {
                    let after = text::texts(gone@);
                    assert(after =~= before.push(id@));
                    prefix::lemma_push_contains(before, id@);
                    assert(!before.contains(id@));
                    assert(after.no_duplicates());
                }
            }
            proof {
                assert forall|c: Seq<char>| #[trigger] text::texts(gone@).contains(c) <==> (ks.take(
                    i + 1,
                ).contains(c) && client_expired(self@, c, expiry, now)) by {
                    assert(ks.take(i + 1).contains(c) == (ks.take(i as int).contains(c) || c
                        == id@));
                    assert(before.contains(c) <==> (ks.take(i as int).contains(c)
                        && client_expired(self@, c, expiry, now)));
                }
            }
            i = i + 1;
        }
        proof {
            self.clients.lemma_keys();
            assert(ks.take(n as int) =~= ks);
        }
        gone
    }

    /// Drops the sessions that have been offline for longer than `expiry`.
    pub fn sweep(&mut self, expiry: u128, now: u128) -> (r: Vec<SweptSession>)
        requires
            old(self).wf(),
        ensures
            final(self).wf(),
            final(self).rules() == old(self).rules(),
            final(self)@ == swept_sessions(old(self)@, expiry, now),
            swept_ids(r@).no_duplicates(),
            forall|c: Seq<char>| #[trigger]
                swept_ids(r@).contains(c) <==> client_expired(old(self)@, c, expiry, now),
            forall|i: int|
                0 <= i < r@.len() ==> {
                    let s = old(self)@.all[old(self)@.clients[(#[trigger] r@[i]).client_id@]];
                    r@[i].aborted@.to_set() == session::tasks_of(s.subs) && r@[i].discard_files
                        == s.durable
                },
    {
        let ghost start = self@;
        let ghost states0 = self.states@;
        let gone = self.expired_clients(expiry, now);
        let ghost ids = text::texts(gone@);
        let mut out: Vec<SweptSession> = Vec::new();
        let mut i: usize = 0;
        while i < gone.len()
            invariant
                i <= gone@.len(),
                ids == text::texts(gone@),
                ids.no_duplicates(),
                forall|c: Seq<char>| #[trigger]
                    ids.contains(c) <==> client_expired(start, c, expiry, now),
                start == old(self)@,
                states0 == old(self).states@,
                old(self).wf(),
                self.made == old(self).made,
                self.max_queue == old(self).max_queue,
                self.durable == old(self).durable,
                self.clients.wf(),
                forall|c: Seq<char>| #[trigger]
                    self.clients@.dom().contains(c) <==> (start.clients.dom().contains(c)
                        && !ids.take(i as int).contains(c)),
                forall|c: Seq<char>|
                    self.clients@.dom().contains(c) ==> #[trigger] self.clients@[c]
                        == start.clients[c],
                forall|h: u64| #[trigger]
                    self.states@.dom().contains(h) <==> (states0.dom().contains(h) && !(registered(
                        start,
                        h,
                    ) && ids.take(i as int).contains(states0[h]@.client_id))),
                forall|h: u64|
                    self.states@.dom().contains(h) ==> #[trigger] self.states@[h] == states0[h],
                out@.len() == i,
                forall|k: int|
                    0 <= k < i ==> {
                        let s = start.all[start.clients[ids[k]]];
                        (#[trigger] out@[k]).client_id@ == ids[k] && out@[k].aborted@.to_set()
                            == session::tasks_of(s.subs) && out@[k].discard_files == s.durable
                    },
            decreases gone.len() - i,
        {
            let id = gone[i].as_str();
            let ghost idv = ids[i as int];
            let ghost h0 = start.clients[idv];
            proof {
                assert(ids.contains(idv));
                assert(start.clients.dom().contains(idv));
                prefix::lemma_next_is_new(ids, i as int);
                prefix::lemma_take_next(ids, i as int);
                assert(self.clients@.dom().contains(idv));
                assert(states0.dom().contains(h0) && states0[h0]@.client_id == idv);
                assert(start.all[h0] == states0[h0]@);
                assert(self.states@.dom().contains(h0));
            }
            let ghost states1 = self.states@;
            let mut aborted: Vec<u64> = Vec::new();
            let mut discard_files = false;
            if let Some(h) = self.clients.remove(id) {
                if let Some(mut s) = self.take(h) {
                    aborted = s.abort_subs();
                    discard_files = s.is_durable();
                }
                assert(h == h0);
            }
            proof {
                assert(self.states@ == states1.remove(h0));
                assert forall|h: u64| #[trigger] self.states@.dom().contains(h) <==> (
                states0.dom().contains(h) && !(registered(start, h) && ids.take(i + 1).contains(
                    states0[h]@.client_id,
                ))) by {
                    assert(self.states@.dom().contains(h) == (states1.dom().contains(h) && h != h0));
                    if states0.dom().contains(h) {
                        assert(start.all[h] == states0[h]@);
                    }
                }
            }
            out.push(SweptSession { client_id: gone[i].clone(), aborted, discard_files });
            i = i + 1;
        }
        proof {
            assert(ids.take(i as int) =~= ids);
            let end = swept_sessions(start, expiry, now);
            assert forall|c: Seq<char>| #[trigger] self@.clients.dom().contains(c)
                == end.clients.dom().contains(c) by {
                assert(self.clients@.dom().contains(c) <==> (start.clients.dom().contains(c)
                    && !ids.contains(c)));
                assert(ids.contains(c) <==> client_expired(start, c, expiry, now));
            }
            assert(self@.clients =~= end.clients);
            assert forall|h: u64| #[trigger] self@.all.dom().contains(h) == end.all.dom().contains(
                h,
            ) by {
                assert(self@.all.dom().contains(h) == self.states@.dom().contains(h));
                if states0.dom().contains(h) {
                    let c = states0[h]@.client_id;
                    assert(start.all[h] == states0[h]@);
                    assert(ids.contains(c) <==> client_expired(start, c, expiry, now));
                }
            }
            assert(self@.all =~= end.all);
            assert(swept_ids(out@) =~= ids);
        }
        out
    }

    /// Counts for the metrics: sessions, offline ones, queued messages, and messages
    /// dropped from full queues.
    pub fn stats(&self) -> (r: (u64, u64, u64, u64))
        requires
            self.wf(),
        ensures
            exists|ids: Seq<Seq<char>>| #[trigger]
                enumerates(self@, ids) && r.0 == ids.len() && r.1 == offline_count(self@, ids)
                    && r.2 == queued_count(self@, ids) % 0x1_0000_0000_0000_0000 && r.3
                    == dropped_count(self@, ids) % 0x1_0000_0000_0000_0000,
    {
        let n = self.clients.len();
        let ghost ks = self.clients.keys();
        let mut offline: u64 = 0;
        let mut queued: u64 = 0;
        let mut dropped: u64 = 0;
        let mut i: usize = 0;
        proof {
            self.clients.lemma_keys();
        }
        while i < n
            invariant
                self.wf(),
                ks == self.clients.keys(),
                n == ks.len(),
                i <= n,
                offline <= i,
                offline == offline_count(self@, ks.take(i as int)),
                queued == queued_count(self@, ks.take(i as int)) % 0x1_0000_0000_0000_0000,
                dropped == dropped_count(self@, ks.take(i as int)) % 0x1_0000_0000_0000_0000,
            decreases n - i,
        {
            let (id, h) = self.clients.entry(i);
            assert(ks.take(i + 1).drop_last() =~= ks.take(i as int));
            assert(ks.take(i + 1).last() == id@);
            if let Some(s) = self.states.get(h) {
                assert(self@.all[self@.clients[id@]] == s@);
                if s.is_offline() {
                    offline = offline + 1;
                }
                queued = queued.wrapping_add(s.queue_len() as u64);
                dropped = dropped.wrapping_add(s.dropped());
            }
            i = i + 1;
        }
        proof {
            assert(ks.take(n as int) =~= ks);
            self.clients.lemma_keys();
            assert(enumerates(self@, ks));
        }
        (n as u64, offline, queued, dropped)
    }

    /// Makes known, as an offline session, a client whose files outlived a restart;
    /// hands back its session. A client that is already known keeps the one it has.
    pub fn restore(&mut self, client_id: &str, identity: &str, file: Option<&[u8]>, now: u128) -> (r:
        u64)
        requires
            old(self).wf(),
            old(self)@.made < u64::MAX,
        ensures
            final(self).wf(),
            final(self).rules() == old(self).rules(),
            (final(self)@, r) == restore_result(
                old(self)@,
                old(self).rules(),
                client_id@,
                identity@,
                match file {
                    Some(data) => Some(data@),
                    None => None,
                },
                now,
            ),
    {
        if let Some(h) = self.clients.get(client_id) {
            return *h;
        }
        let queue = match file {
            Some(data) => match load_queue(data, self.max_queue) {
                Ok(q) => q,
                Err(_) => VecDeque::new(),
            },
            None => VecDeque::new(),
        };
        let ghost file_bytes: Option<Seq<u8>> = match file {
            Some(data) => Some(data@),
            None => None,
        };
        assert(session::messages(queue@) =~= file_queue(file_bytes, self.max_queue as nat));
        let h = self.made;
        let mut s = SessionState::new(client_id, identity, self.max_queue, queue, self.durable);
        s.park(now);
        let ghost sv = s@;
        self.states.insert(h, s);
        self.clients.insert(client_id.to_owned(), h);
        self.made = h + 1;
        assert(self@.all =~= old(self)@.all.insert(h, sv));
        h
    }

    /// The bytes of a session's queue file; `None` where it keeps none.
    pub fn queue_file(&self, session: u64) -> (r: Option<Vec<u8>>)
        requires
            self.wf(),
        ensures
            match r {
                Some(b) => self@.all.dom().contains(session) && self@.all[session].durable && b@
                    == durable::queue_bytes(self@.all[session].queue),
                None => !self@.all.dom().contains(session) || !self@.all[session].durable
                    || !crate::codec::pairs_fit(self@.all[session].queue),
            },
    {
        match self.states.get(&session) {
            Some(s) => s.queue_file(),
            None => None,
        }
    }

    /// A session's subscriptions as they are kept across a restart; `None` where it
    /// keeps nothing.
    pub fn subs_file(&self, session: u64) -> (r: Option<SubsFile>)
        requires
            self.wf(),
        ensures
            match r {
                Some(f) => self@.all.dom().contains(session) && self@.all[session].durable
                    && f@.client_id == self@.all[session].client_id && f@.identity
                    == self@.all[session].identity && session::lists_subs(
                    self@.all[session].subs,
                    f@.subs,
                ),
                None => !self@.all.dom().contains(session) || !self@.all[session].durable,
            },
    {
        match self.states.get(&session) {
            Some(s) => s.subs_file(),
            None => None,
        }
    }
}

/// The client ids of dropped sessions.
pub open spec fn swept_ids(v: Seq<SweptSession>) -> Seq<Seq<char>> {
    v.map_values(|s: SweptSession| s.client_id@)
}

/// The sessions after the expired ones were dropped.
pub open spec fn swept_sessions(reg: Sessions, expiry: u128, now: u128) -> Sessions {
    Sessions {
        clients: Map::new(
            |c: Seq<char>| reg.clients.dom().contains(c) && !client_expired(reg, c, expiry, now),
            |c: Seq<char>| reg.clients[c],
        ),
        all: Map::new(
            |h: u64|
                reg.all.dom().contains(h) && !(registered(reg, h) && session::is_expired(
                    reg.all[h],
                    expiry,
                    now,
                )),
            |h: u64| reg.all[h],
        ),
        ..reg
    }
}

/// The sessions with one restored from its files.
pub open spec fn restore_result(
    reg: Sessions,
    rules: RegistryRules,
    client_id: Seq<char>,
    identity: Seq<char>,
    file: Option<Seq<u8>>,
    now: u128,
) -> (Sessions, u64) {
    if reg.clients.dom().contains(client_id) {
        (reg, reg.clients[client_id])
    } else {
        let queue = file_queue(file, rules.max_queue as nat);
        let s = session::fresh_session(client_id, identity, queue, rules.durable);
        (
            Sessions {
                clients: reg.clients.insert(client_id, reg.made),
                all: reg.all.insert(reg.made, session::gone_offline(s, now)),
                made: (reg.made + 1) as u64,
            },
            reg.made,
        )
    }
}

} // verus!
