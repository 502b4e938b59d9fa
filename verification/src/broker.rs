//! A node's whole state beside its sockets: policies, gate, sessions, retained messages
//! and counters.

use crate::admission::{self, ConnectAdmission};
use crate::churn::{self, ChurnGuard, History};
use crate::config::NodeConfig;
use crate::connection::{Client, NodeInfo};
use crate::durable::{self, reinstated, SubsFile};
use crate::gate::{Entry, Gate};
use crate::metrics::{self, Gauges, Metrics};
use crate::node::{self, startup, ConnectionCount, Startup};
use crate::packet::{self, LastWill, QoS};
use crate::policy::{self, Policies};
use crate::quota::IdentityConns;
use crate::registry::{self, AttachOutcome, DetachOutcome, RegistryRules, SessionRegistry};
use crate::retained::RetainedStore;
use crate::schema;
use vstd::prelude::*;
use vstd::string::*;

verus! {

pub struct Broker {
    pub node: NodeInfo,
    pub max_packet_size: usize,
    pub startup: Startup,
    pub policies: Policies,
    pub gate: Gate,
    pub registry: SessionRegistry,
    pub retained: RetainedStore,
    pub metrics: Metrics,
    pub conns: ConnectionCount,
}

impl Broker {
    pub open spec fn wf(&self) -> bool {
        self.gate.wf() && self.registry.wf() && self.retained.wf()
    }

    /// Makes the state of a node out of its configuration; fails where a schema cannot
    /// be used.
    pub fn new(cfg: NodeConfig) -> (r: Result<Self, String>)
        ensures
            match r {
                Ok(b) => {
                    &&& schema::first_fault(cfg.schema@) is None
                    &&& b.wf()
                    &&& b.node.id@ == cfg.id@
                    &&& b.node.scope@ == cfg.scope@
                    &&& b.node.max_publish_rate == cfg.max_publish_rate
                    &&& b.max_packet_size == cfg.max_packet_size
                    &&& b.startup.slow_grace_ms == node::unless_zero(cfg.slow_consumer_grace_ms)
                    &&& b.startup.sys_interval_secs == node::unless_zero(cfg.sys_interval_secs)
                    &&& b.startup.session_expiry_secs == node::unless_zero(
                        cfg.session_expiry_secs,
                    )
                    &&& b.startup.durable == (cfg.data_dir is Some)
                    &&& b.policies@ == policy::configured(cfg)
                    &&& b.gate.admission@ == admission::admission_limits(
                        cfg.connect_admission_rate,
                        cfg.connect_admission_burst,
                    )
                    &&& b.gate.admission.due() == 0
                    &&& b.gate.churn.rules() == churn::churn_rules(
                        cfg.churn_max_reconnects,
                        cfg.churn_window_secs,
                        cfg.churn_cooldown_secs,
                    )
                    &&& b.gate.churn@ == Map::<Seq<char>, History>::empty()
                    &&& b.gate.churn.clock_reading() == 0
                    &&& forall|k: Seq<char>| b.gate.conns.count(k) == 0
                    &&& b.registry.rules() == (RegistryRules {
                        max_queue: cfg.max_queued_per_session,
                        durable: cfg.data_dir is Some,
                    })
                    &&& b.registry@.clients == Map::<Seq<char>, u64>::empty()
                    &&& b.registry@.made == 0
                    &&& b.retained@ == Map::<Seq<char>, Seq<u8>>::empty()
                    &&& b.retained.scans() == 0
                    &&& b.retained.answerable() == Set::<Seq<char>>::empty()
                    &&& !b.retained.dirty()
                    &&& b.metrics == metrics::zero_metrics()
                    &&& b.conns.limit() == cfg.max_connections
                    &&& b.conns.open() == 0
                },
                Err(e) => schema::refused(cfg.schema@, e@),
            },
    {
        let startup = startup(&cfg);
        let node = NodeInfo {
            id: cfg.id.clone(),
            scope: cfg.scope.clone(),
            max_publish_rate: cfg.max_publish_rate,
        };
        let gate = Gate {
            admission: ConnectAdmission::new(
                cfg.connect_admission_rate,
                cfg.connect_admission_burst,
            ),
            churn: ChurnGuard::new(
                cfg.churn_max_reconnects,
                cfg.churn_window_secs,
                cfg.churn_cooldown_secs,
            ),
            conns: IdentityConns::new(),
        };
        let registry = SessionRegistry::new(cfg.max_queued_per_session, cfg.data_dir.is_some());
        let max_packet_size = cfg.max_packet_size;
        let conns = ConnectionCount::new(cfg.max_connections);
        let policies = match Policies::new(cfg) {
            Ok(p) => p,
            Err(e) => {
                return Err(e);
            },
        };
        Ok(
            Broker {
                node,
                max_packet_size,
                startup,
                policies,
                gate,
                registry,
                retained: RetainedStore::new(),
                metrics: Metrics::default(),
                conns,
            },
        )
    }

    /// Open connections, never more than the limit.
    pub fn connections(&self) -> (r: usize)
        ensures
            r == self.conns.open(),
            r <= self.conns.limit(),
    {
        self.conns.connections()
    }

    /// Changes users, grants, schemas, staleness bounds and quotas to those of a
    /// configuration; nothing where a schema in it cannot be used.
    pub fn reload(&mut self, cfg: NodeConfig) -> (r: Result<(), String>)
        requires
            old(self).wf(),
        ensures
            final(self).wf(),
            match r {
                Ok(()) => schema::first_fault(cfg.schema@) is None && final(self).policies@
                    == policy::configured(cfg) && *final(self) == (Broker {
                    policies: final(self).policies,
                    ..*old(self)
                }),
                Err(e) => schema::refused(cfg.schema@, e@) && *final(self) == *old(
                    self,
                ),
            },
    {
        self.policies.reload(cfg)
    }

    /// The current state for the metrics page and the node stats.
    pub fn gauges(&self) -> (r: Gauges)
        requires
            self.wf(),
        ensures
            r.connections == self.conns.open(),
            r.retained_scans == self.retained.scans(),
            r.retained_messages == self.retained@.len(),
            exists|ids: Seq<Seq<char>>| #[trigger]
                registry::enumerates(self.registry@, ids) && r.sessions == ids.len()
                    && r.sessions_offline == registry::offline_count(self.registry@, ids)
                    && r.queue_depth == registry::queued_count(self.registry@, ids)
                    % 0x1_0000_0000_0000_0000 && r.queue_dropped == registry::dropped_count(
                    self.registry@,
                    ids,
                ) % 0x1_0000_0000_0000_0000,
    {
        let (sessions, sessions_offline, queue_depth, queue_dropped) = self.registry.stats();
        Gauges {
            connections: self.conns.connections() as u64,
            retained_scans: self.retained.scan_count(),
            retained_messages: self.retained.len() as u64,
            sessions,
            sessions_offline,
            queue_depth,
            queue_dropped,
        }
    }

    /// Gives a client that was let in its session.
    pub fn welcome(
        &mut self,
        entry: &Entry,
        keep_alive: u16,
        will: Option<LastWill>,
        conn: u64,
        file: Option<&[u8]>,
    ) -> (r: (Client, AttachOutcome))
        requires
            old(self).wf(),
            old(self).registry@.made < u64::MAX,
        ensures
            final(self).wf(),
            *final(self) == (Broker { registry: final(self).registry, ..*old(self) }),
            final(self).registry.rules() == old(self).registry.rules(),
            (final(self).registry@, r.1@) == registry::attach_result(
                old(self).registry@,
                old(self).registry.rules(),
                entry.client_id@,
                entry.identity@,
                entry.clean,
                conn,
                match file {
                    Some(data) => Some(data@),
                    None => None,
                },
            ),
            r.0.session == r.1.session,
            r.0.id@ == entry.client_id@,
            r.0.identity@ == entry.identity@,
            r.0.keep_alive == keep_alive,
            r.0.will == will,
            r.0.inflight@.len() == 0,
    {
        let outcome = self.registry.attach(
            entry.client_id.as_str(),
            entry.identity.as_str(),
            entry.clean,
            conn,
            file,
        );
        let client = Client {
            session: outcome.session,
            id: entry.client_id.clone(),
            identity: entry.identity.clone(),
            keep_alive,
            will,
            inflight: Vec::new(),
        };
        (client, outcome)
    }

    /// Takes leave of a client whose connection has ended: its session is detached, and
    /// its connection no longer counts against its identity.
    pub fn farewell(&mut self, client: &Client, epoch: u64, clean: bool, now: u128) -> (r:
        DetachOutcome)
        requires
            old(self).wf(),
        ensures
            final(self).wf(),
            *final(self) == (Broker {
                registry: final(self).registry,
                gate: final(self).gate,
                ..*old(self)
            }),
            final(self).gate.admission == old(self).gate.admission,
            final(self).gate.churn == old(self).gate.churn,
            forall|k: Seq<char>| #[trigger]
                final(self).gate.conns.count(k) == (if k == client.identity@
                    && old(self).gate.conns.count(k) > 0 {
                    (old(self).gate.conns.count(k) - 1) as nat
                } else {
                    old(self).gate.conns.count(k)
                }),
            final(self).registry.rules() == old(self).registry.rules(),
            final(self).registry@ == registry::detach_result(
                old(self).registry@,
                client.session,
                epoch,
                clean,
                now,
            ),
            r.detached == (old(self).registry@.all.dom().contains(client.session)
                && old(self).registry@.all[client.session].epoch == epoch),
            r.aborted@.to_set() == (if r.detached && clean {
                crate::session::tasks_of(old(self).registry@.all[client.session].subs)
            } else {
                Set::empty()
            }),
            r.discard_files == (r.detached && clean
                && old(self).registry@.all[client.session].durable),
    {
        self.gate.conns.release(client.identity.as_str());
        self.registry.detach(client.session, epoch, clean, now)
    }

    /// Takes note that sending on a connection of a session has failed; hands back whether
    /// the connection is evicted as too slow, which is counted, and whom to kick.
    pub fn send_failed(&mut self, session: u64, conn: u64, timed_out: bool, now: u128) -> (r: (
        bool,
        Option<u64>,
    ))
        requires
            old(self).wf(),
        ensures
            final(self).wf(),
            *final(self) == (Broker {
                registry: final(self).registry,
                metrics: final(self).metrics,
                ..*old(self)
            }),
            final(self).registry.rules() == old(self).registry.rules(),
            final(self).registry@ == registry::failed_send(
                old(self).registry@,
                session,
                conn,
                timed_out,
                now,
            ),
            r.0 == registry::evicts(old(self).registry@, session, conn, timed_out),
            r.1 == (if r.0 {
                old(self).registry@.all[session].kick
            } else {
                None
            }),
            final(self).metrics == (if r.0 {
                Metrics {
                    slow_consumer_evictions_total: metrics::bumped(
                        old(self).metrics.slow_consumer_evictions_total,
                    ),
                    ..old(self).metrics
                }
            } else {
                old(self).metrics
            }),
    {
        let (evicted, kicked) = self.registry.send_failed(session, conn, timed_out, now);
        if evicted {
            Metrics::bump(&mut self.metrics.slow_consumer_evictions_total);
        }
        (evicted, kicked)
    }

    /// Restores a session from its files after a restart: it is known as offline, and the
    /// subscriptions that its identity may still have are to be declared again.
    pub fn rehydrate(&mut self, kept: &SubsFile, queue: Option<&[u8]>, now: u128) -> (r: (
        u64,
        Vec<(String, QoS)>,
    ))
        requires
            old(self).wf(),
            old(self).registry@.made < u64::MAX,
        ensures
            final(self).wf(),
            *final(self) == (Broker { registry: final(self).registry, ..*old(self) }),
            final(self).registry.rules() == old(self).registry.rules(),
            (final(self).registry@, r.0) == registry::restore_result(
                old(self).registry@,
                old(self).registry.rules(),
                kept@.client_id,
                kept@.identity,
                match queue {
                    Some(data) => Some(data@),
                    None => None,
                },
                now,
            ),
            packet::asked(r.1@) == durable::still_granted(
                old(self).policies@.acl,
                kept@.identity,
                kept@.subs,
            ),
    {
        let session = self.registry.restore(
            kept.client_id.as_str(),
            kept.identity.as_str(),
            queue,
            now,
        );
        let subs = reinstated(&self.policies.acl, kept);
        (session, subs)
    }
}

} // verus!
