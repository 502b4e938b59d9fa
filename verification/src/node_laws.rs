//! Laws of a node as a whole: its configuration, its counters and their page, its
//! connections, its policies, and what becomes of a client that comes and goes.

use crate::auth;
use crate::broker::Broker;
use crate::config::{self, AuthConfig, NodeConfig, Overrides};
use crate::connection::Client;
use crate::ctl::{self, DisconnectOutcome};
use crate::durable::{self, SubsFile};
use crate::gate::Entry;
use crate::http;
use crate::metrics::{self, Gauges, Metrics};
use crate::node::{self, ConnectionCount, Startup};
use crate::packet::{self, LastWill, QoS};
use crate::policy::Policies;
use crate::registry::{self, AttachOutcome, DetachOutcome, SessionRegistry};
use crate::schema;
use crate::session::Session;
use crate::session_laws;
use crate::text;
use vstd::prelude::*;
use vstd::string::*;

verus! {

/// A setting given on the command line takes the place of the one in the file; one that
/// is not given leaves it alone.
pub proof fn law_overrides_win(file: NodeConfig, o: Overrides, c: NodeConfig)
    requires
        call_ensures(config::apply_overrides, (file, o), c),
    ensures
        o.id is None ==> c.id == file.id,
        o.id matches Some(id) ==> c.id == id,
        o.mqtt is None ==> c.mqtt_listen == file.mqtt_listen,
        o.mqtt matches Some(listen) ==> c.mqtt_listen == listen,
        o.scope is None ==> c.scope == file.scope,
        o.scope matches Some(scope) ==> c.scope == scope,
        o.max_packet_size is None ==> c.max_packet_size == file.max_packet_size,
        o.max_packet_size matches Some(n) ==> c.max_packet_size == n,
        o.connect_admission_rate is None ==> c.connect_admission_rate
            == file.connect_admission_rate,
        o.connect_admission_rate matches Some(n) ==> c.connect_admission_rate == n,
        o.connect_admission_burst is None ==> c.connect_admission_burst
            == file.connect_admission_burst,
        o.connect_admission_burst matches Some(n) ==> c.connect_admission_burst == n,
        o.retained_staleness_secs is None ==> c.retained_staleness_secs
            == file.retained_staleness_secs,
        o.retained_staleness_secs matches Some(n) ==> c.retained_staleness_secs == n,
        o.zenoh_link_mtu is None ==> c.zenoh_link_mtu == file.zenoh_link_mtu,
        o.zenoh_link_mtu is Some ==> c.zenoh_link_mtu == o.zenoh_link_mtu,
        o.churn_max_reconnects is None ==> c.churn_max_reconnects == file.churn_max_reconnects,
        o.churn_max_reconnects matches Some(n) ==> c.churn_max_reconnects == n,
        o.churn_window_secs is None ==> c.churn_window_secs == file.churn_window_secs,
        o.churn_window_secs matches Some(n) ==> c.churn_window_secs == n,
        o.churn_cooldown_secs is None ==> c.churn_cooldown_secs == file.churn_cooldown_secs,
        o.churn_cooldown_secs matches Some(n) ==> c.churn_cooldown_secs == n,
        o.zenoh_listen@.len() == 0 ==> c.zenoh_listen == file.zenoh_listen,
        o.zenoh_listen@.len() > 0 ==> c.zenoh_listen == o.zenoh_listen,
{
}

/// The peers are those of the command line, or else of the file, and after them the
/// ordinal-0 node, unless that is this very node. What cannot be given on the command line
/// stays as it is in the file.
pub proof fn law_peers_and_the_rest(
    file: NodeConfig,
    o: Overrides,
    c: NodeConfig,
    seed: &str,
    id: &str,
    own: bool,
)
    requires
        call_ensures(config::apply_overrides, (file, o), c),
        call_ensures(config::is_peer_zero_self, (seed, id), own),
        id@ == c.id@,
        o.peer_zero matches Some(endpoint) ==> endpoint@ == seed@,
    ensures
        ({
            let given = if o.peers@.len() > 0 {
                o.peers@
            } else {
                file.peers@
            };
            &&& o.peer_zero is None ==> c.peers@ == given
            &&& o.peer_zero matches Some(endpoint) ==> c.peers@ == (if own {
                given
            } else {
                given.push(endpoint)
            })
        }),
        c.max_connections == file.max_connections,
        c.max_publish_rate == file.max_publish_rate,
        c.data_dir == file.data_dir,
        c.metrics_listen == file.metrics_listen,
        c.health_listen == file.health_listen,
        c.session_expiry_secs == file.session_expiry_secs,
        c.max_queued_per_session == file.max_queued_per_session,
        c.slow_consumer_grace_ms == file.slow_consumer_grace_ms,
        c.sys_interval_secs == file.sys_interval_secs,
        c.staleness == file.staleness,
        c.tls == file.tls,
        c.auth == file.auth,
        c.acl == file.acl,
        c.schema == file.schema,
        c.quota == file.quota,
{
}

/// Without a configuration everyone is let in and may do everything: no users, no token
/// settings, and nothing is denied.
pub proof fn law_open_by_default(c: AuthConfig, n: NodeConfig)
    requires
        call_ensures(AuthConfig::default, (), c),
        call_ensures(NodeConfig::default, (), n),
    ensures
        c.allow_anonymous,
        c.default_policy is Allow,
        c.users@.len() == 0,
        c.jwt is None,
        n.auth.allow_anonymous,
        n.auth.default_policy is Allow,
        n.auth.users@.len() == 0,
        n.auth.jwt is None,
        n.acl@.len() == 0,
{
}

/// A duration of 0 switches a part of the node off; any other is taken as it is. State is
/// kept in files exactly where there is a directory for it.
pub proof fn law_startup_settings(cfg: &NodeConfig, r: Startup)
    requires
        call_ensures(node::startup, (cfg,), r),
    ensures
        cfg.slow_consumer_grace_ms == 0 ==> r.slow_grace_ms is None,
        cfg.slow_consumer_grace_ms > 0 ==> r.slow_grace_ms == Some(cfg.slow_consumer_grace_ms),
        cfg.sys_interval_secs == 0 ==> r.sys_interval_secs is None,
        cfg.sys_interval_secs > 0 ==> r.sys_interval_secs == Some(cfg.sys_interval_secs),
        cfg.session_expiry_secs == 0 ==> r.session_expiry_secs is None,
        cfg.session_expiry_secs > 0 ==> r.session_expiry_secs == Some(cfg.session_expiry_secs),
        r.durable <==> cfg.data_dir is Some,
        r.open_to_all <==> cfg.auth.allow_anonymous && cfg.auth.users@.len() == 0,
{
}

/// The bus session is a peer that joins nothing by itself, listens where it is told to,
/// connects to its peers, and has its batch size capped exactly where a cap is set.
pub proof fn law_bus_settings(
    cfg: &NodeConfig,
    r: Vec<(&'static str, String)>,
    listen: String,
    peers: String,
)
    requires
        call_ensures(node::zenoh_settings, (cfg,), r),
        call_ensures(node::to_json_array, (&cfg.zenoh_listen,), listen),
        call_ensures(node::to_json_array, (&cfg.peers,), peers),
    ensures
        r@.len() == (if cfg.zenoh_link_mtu is Some {
            5int
        } else {
            4int
        }),
        r@[0].0@ == "mode"@ && r@[0].1@ == "\"peer\""@,
        r@[1].0@ == "scouting/multicast/enabled"@ && r@[1].1@ == "false"@,
        r@[2].0@ == "listen/endpoints"@ && r@[2].1@ == listen@,
        r@[3].0@ == "connect/endpoints"@ && r@[3].1@ == peers@,
        cfg.zenoh_link_mtu matches Some(mtu) ==> r@[4].0@ == "transport/link/tx/batch_size"@
            && r@[4].1@ == text::decimal(mtu as nat),
{
    let all = node::setting_texts(r@);
    assert(all.len() == r@.len());
    assert forall|i: int| 0 <= i < r@.len() implies #[trigger] all[i] == (
        r@[i].0@,
        r@[i].1@,
    ) by {}
    assert(all[0] == (r@[0].0@, r@[0].1@));
    assert(all[1] == (r@[1].0@, r@[1].1@));
    assert(all[2] == (r@[2].0@, r@[2].1@));
    assert(all[3] == (r@[3].0@, r@[3].1@));
    if cfg.zenoh_link_mtu is Some {
        assert(all[4] == (r@[4].0@, r@[4].1@));
    }
}

/// A list of texts as a JSON array: each in quotes, in order, with commas between them.
pub proof fn law_json_arrays(items: &Vec<String>, r: String, one: &Vec<String>, single: String)
    requires
        call_ensures(node::to_json_array, (items,), r),
        call_ensures(node::to_json_array, (one,), single),
        one@.len() == 1,
    ensures
        items@.len() == 0 ==> r@ == "[]"@,
        items@.len() > 0 ==> r@ == "["@ + text::join(
            Seq::new(items@.len(), |i: int| text::quoted(items@[i]@)),
            ',',
        ) + "]"@,
        single@ == "["@ + text::quoted(one@[0]@) + "]"@,
{
    let quoted = Seq::new(items@.len(), |i: int| text::quoted(items@[i]@));
    assert(node::all_quoted(text::texts(items@)) =~= quoted);
    let q = node::all_quoted(text::texts(one@));
    assert(q =~= seq![text::quoted(one@[0]@)]);
}

/// A node takes one connection more exactly while it has fewer than its limit, and never
/// has more; closing one gives its place back.
pub proof fn law_connections_keep_to_the_limit(
    count: &mut ConnectionCount,
    r: bool,
    later: &mut ConnectionCount,
    max: usize,
    fresh: ConnectionCount,
)
    requires
        call_ensures(ConnectionCount::try_open, (count,), r),
        call_ensures(ConnectionCount::close, (later,), ()),
        call_ensures(ConnectionCount::new, (max,), fresh),
    ensures
        r <==> old(count).open() < old(count).limit(),
        r ==> final(count).open() == old(count).open() + 1,
        !r ==> final(count).open() == old(count).open(),
        final(count).limit() == old(count).limit(),
        old(later).open() > 0 ==> final(later).open() == old(later).open() - 1,
        old(later).open() == 0 ==> final(later).open() == 0,
        final(later).limit() == old(later).limit(),
        fresh.open() == 0 && fresh.limit() == max,
{
}

/// The name in a chain of client certificates is that of the first.
pub proof fn law_certificate_names(chain: &Vec<Vec<u8>>, r: Option<String>)
    requires
        call_ensures(node::peer_cn, (chain,), r),
    ensures
        chain@.len() == 0 ==> r is None,
        chain@.len() > 0 ==> (r is Some <==> node::common_name_of(chain@[0]@) is Some),
        chain@.len() > 0 && r is Some ==> node::common_name_of(chain@[0]@) == Some(r->0@),
{
}

/// One event more counts as one more, and starts again from 0 after the largest number.
pub proof fn law_counters(counter: &mut u64, fresh: Metrics)
    requires
        call_ensures(Metrics::bump, (counter,), ()),
        call_ensures(Metrics::default, (), fresh),
    ensures
        *old(counter) < u64::MAX ==> *final(counter) == *old(counter) + 1,
        *old(counter) == u64::MAX ==> *final(counter) == 0,
        fresh.connections_total == 0 && fresh.messages_in_total == 0 && fresh.messages_out_total
            == 0,
{
}

/// The rows of the metrics page: every counter and every gauge, each under its own name.
pub proof fn law_page_rows(m: Metrics, g: Gauges)
    ensures
        ({
            let rows = metrics::rows_of(m, g);
            let is = |i: int, name: Seq<char>, value: u64|
                rows[i].name@ == name && rows[i].value == value;
            &&& rows.len() == 22
            &&& is(0, "connections_current"@, g.connections)
            &&& is(1, "connections_total"@, m.connections_total)
            &&& is(2, "connect_refused_total"@, m.connect_refused_total)
            &&& is(3, "connect_shed_total"@, m.connect_shed_total)
            &&& is(4, "churn_quarantined_total"@, m.churn_quarantined_total)
            &&& is(5, "quota_refused_total"@, m.quota_refused_total)
            &&& is(6, "messages_in_total"@, m.messages_in_total)
            &&& is(7, "messages_out_total"@, m.messages_out_total)
            &&& is(8, "messages_queued_total"@, m.messages_queued_total)
            &&& is(9, "publish_denied_total"@, m.publish_denied_total)
            &&& is(10, "schema_denied_total"@, m.schema_denied_total)
            &&& is(11, "subscribe_denied_total"@, m.subscribe_denied_total)
            &&& is(12, "subscribes_total"@, m.subscribes_total)
            &&& is(13, "retained_scans_total"@, g.retained_scans)
            &&& is(14, "stale_retained_total"@, m.stale_retained_total)
            &&& is(15, "rate_limit_disconnects_total"@, m.rate_limit_disconnects_total)
            &&& is(16, "slow_consumer_evictions_total"@, m.slow_consumer_evictions_total)
            &&& is(17, "retained_messages"@, g.retained_messages)
            &&& is(18, "sessions"@, g.sessions)
            &&& is(19, "sessions_offline"@, g.sessions_offline)
            &&& is(20, "session_queue_depth"@, g.queue_depth)
            &&& is(21, "session_queue_dropped_total"@, g.queue_dropped)
        }),
{
}

/// The metrics page tells every row in order, each with its help, its kind and, labelled
/// with the node, its value; a gauge rises and falls, a counter does not.
pub proof fn law_pages(m: &Metrics, g: &Gauges, node: &str, r: String, i: int)
    requires
        call_ensures(metrics::render, (m, g, node), r),
        0 <= i < 22,
    ensures
        ({
            let row = metrics::rows_of(*m, *g)[i];
            let line = "# HELP entmoot_"@ + row.name@ + " "@ + row.help@ + "\n# TYPE entmoot_"@
                + row.name@ + " "@ + row.kind@ + "\nentmoot_"@ + row.name@ + "{node=\""@ + node@
                + "\"} "@ + text::decimal(row.value as nat) + "\n"@;
            let before = metrics::page_text(metrics::rows_of(*m, *g).take(i), node@);
            &&& before.len() + line.len() <= r@.len()
            &&& r@.subrange(before.len() as int, (before.len() + line.len()) as int) == line
            &&& i == 0 || 17 <= i <= 20 ==> row.kind@ == "gauge"@
            &&& i != 0 && !(17 <= i <= 20) ==> row.kind@ == "counter"@
        }),
{
    let rows = metrics::rows_of(*m, *g);
    let before = metrics::page_text(rows.take(i), node@);
    let upto = metrics::page_text(rows.take(i + 1), node@);
    assert(rows.take(i + 1).drop_last() =~= rows.take(i));
    assert(rows.take(i + 1).last() == rows[i]);
    let line = metrics::row_text(rows[i], node@);
    assert(upto == before + line);
    lemma_page_prefix(rows, node@, i + 1);
    assert(r@.subrange(before.len() as int, (before.len() + line.len()) as int) =~= line) by {
        assert(r@.take(upto.len() as int) == upto);
        assert forall|k: int| 0 <= k < line.len() implies r@[before.len() + k] == line[k] by {
            assert(r@.take(upto.len() as int)[before.len() + k] == upto[before.len() + k]);
        }
    }
}

proof fn lemma_page_prefix(rows: Seq<metrics::Row>, node: Seq<char>, i: int)
    requires
        0 <= i <= rows.len(),
    ensures
        metrics::page_text(rows.take(i), node).len() <= metrics::page_text(rows, node).len(),
        metrics::page_text(rows, node).take(
            metrics::page_text(rows.take(i), node).len() as int,
        ) == metrics::page_text(rows.take(i), node),
    decreases rows.len(),
{
    let part = metrics::page_text(rows.take(i), node);
    if i == rows.len() {
        assert(rows.take(i) =~= rows);
        assert(part.take(part.len() as int) =~= part);
    } else {
        let d = rows.drop_last();
        lemma_page_prefix(d, node, i);
        assert(d.take(i) =~= rows.take(i));
        let whole = metrics::page_text(rows, node);
        let most = metrics::page_text(d, node);
        assert(whole == most + metrics::row_text(rows.last(), node));
        assert(whole.take(part.len() as int) =~= most.take(part.len() as int));
    }
}

/// The node stats: connected clients, messages received and sent, retained messages, known
/// and offline sessions, uptime and version, each on its own key below the node's name.
pub proof fn law_node_stats(
    m: &Metrics,
    g: &Gauges,
    uptime_secs: u64,
    version: &str,
    node: &str,
    scope: &str,
    r: Vec<(String, String)>,
)
    requires
        call_ensures(metrics::sys_messages, (m, g, uptime_secs, version, node, scope), r),
    ensures
        ({
            let is = |i: int, path: Seq<char>, value: Seq<char>|
                r@[i].0@ == metrics::stat_key(path, node@, scope@) && r@[i].1@ == value;
            &&& r@.len() == 8
            &&& is(0, "clients/connected"@, text::decimal(g.connections as nat))
            &&& is(1, "messages/received"@, text::decimal(m.messages_in_total as nat))
            &&& is(2, "messages/sent"@, text::decimal(m.messages_out_total as nat))
            &&& is(3, "retained/count"@, text::decimal(g.retained_messages as nat))
            &&& is(4, "sessions/count"@, text::decimal(g.sessions as nat))
            &&& is(5, "sessions/offline"@, text::decimal(g.sessions_offline as nat))
            &&& is(6, "uptime/seconds"@, text::decimal(uptime_secs as nat))
            &&& is(7, "version"@, version@)
        }),
        scope@.len() == 0 ==> r@[7].0@ == "@sys/broker/"@ + node@ + "/version"@,
{
    let want = metrics::stats_of(*m, *g, uptime_secs, version@);
    let all = metrics::pair_texts(r@);
    assert(all.len() == r@.len());
    assert forall|i: int| 0 <= i < 8 implies r@[i].0@ == metrics::stat_key(
        (#[trigger] want[i]).0,
        node@,
        scope@,
    ) && r@[i].1@ == want[i].1 by {
        assert(all[i] == (r@[i].0@, r@[i].1@));
    }
    assert(want[0].0 == "clients/connected"@);
    assert(want[1].0 == "messages/received"@);
    assert(want[2].0 == "messages/sent"@);
    assert(want[3].0 == "retained/count"@);
    assert(want[4].0 == "sessions/count"@);
    assert(want[5].0 == "sessions/offline"@);
    assert(want[6].0 == "uptime/seconds"@);
    assert(want[7].0 == "version"@);
    reveal_strlit("@sys");
    reveal_strlit("broker/");
    reveal_strlit("/");
    reveal_strlit("version");
    reveal_strlit("@sys/broker/");
    reveal_strlit("/version");
    if scope@.len() == 0 {
        assert(r@[7].0@ =~= "@sys/broker/"@ + node@ + "/version"@);
    }
}

/// The policies of a node are those of its configuration, whether it starts with it or
/// takes it in later; a configuration with an unusable schema changes nothing.
pub proof fn law_policies_are_those_configured(
    cfg: NodeConfig,
    policies: &mut Policies,
    r: Result<(), String>,
    made: Result<Policies, String>,
)
    requires
        call_ensures(Policies::reload, (policies, cfg), r),
        call_ensures(Policies::new, (cfg,), made),
    ensures
        r is Ok <==> schema::first_fault(cfg.schema@) is None,
        made is Ok <==> schema::first_fault(cfg.schema@) is None,
        r is Err ==> *final(policies) == *old(policies),
        r is Ok ==> {
            let p = final(policies)@;
            &&& p.auth == auth::auth_rules(cfg.auth)
            &&& p.acl.0 == cfg.acl@
            &&& p.acl.1 <==> cfg.auth.default_policy is Allow
            &&& p.schema == cfg.schema@
            &&& p.staleness.0 == cfg.staleness@
            &&& p.staleness.1 == cfg.retained_staleness_secs
            &&& p.quota == cfg.quota@
        },
        made matches Ok(p) ==> {
            &&& p@.auth == auth::auth_rules(cfg.auth)
            &&& p@.acl.0 == cfg.acl@
            &&& p@.acl.1 <==> cfg.auth.default_policy is Allow
            &&& p@.schema == cfg.schema@
            &&& p@.staleness.0 == cfg.staleness@
            &&& p@.staleness.1 == cfg.retained_staleness_secs
            &&& p@.quota == cfg.quota@
        },
{
}

/// A node starts as it is configured, with nothing counted, nobody known and nothing
/// retained.
pub proof fn law_nodes_start_as_configured(cfg: NodeConfig, r: Result<Broker, String>)
    requires
        call_ensures(Broker::new, (cfg,), r),
    ensures
        r is Ok <==> schema::first_fault(cfg.schema@) is None,
        r matches Ok(b) ==> {
            &&& b.node.id@ == cfg.id@ && b.node.scope@ == cfg.scope@
            &&& b.node.max_publish_rate == cfg.max_publish_rate
            &&& b.max_packet_size == cfg.max_packet_size
            &&& b.conns.limit() == cfg.max_connections && b.conns.open() == 0
            &&& b.registry.rules().max_queue == cfg.max_queued_per_session
            &&& b.registry.rules().durable <==> cfg.data_dir is Some
            &&& b.gate.churn.rules().max_reconnects == cfg.churn_max_reconnects
            &&& cfg.churn_window_secs > 0 ==> b.gate.churn.rules().window == cfg.churn_window_secs
                * 1_000_000_000
            &&& cfg.churn_cooldown_secs > 0 ==> b.gate.churn.rules().cooldown
                == cfg.churn_cooldown_secs * 1_000_000_000
            &&& cfg.connect_admission_rate == 0 ==> b.gate.admission@ is None
            &&& cfg.connect_admission_rate > 0 ==> (b.gate.admission@ matches Some((rate, burst))
                && rate == cfg.connect_admission_rate && burst >= rate && burst
                >= cfg.connect_admission_burst)
            &&& b.policies@.acl.0 == cfg.acl@
            &&& cfg.session_expiry_secs > 0 ==> b.startup.session_expiry_secs == Some(
                cfg.session_expiry_secs,
            )
            &&& cfg.session_expiry_secs == 0 ==> b.startup.session_expiry_secs is None
            &&& b.registry@.clients.dom() =~= Set::empty()
            &&& b.retained@.dom() =~= Set::empty()
            &&& b.metrics.connections_total == 0 && b.metrics.messages_in_total == 0
            &&& forall|k: Seq<char>| #[trigger] b.gate.conns.count(k) == 0
            &&& !b.retained.dirty() && b.retained.scans() == 0
        },
{
}

/// A client that was let in is known to its connection as it was let in: its id and
/// identity, its keep-alive, its will, and no awaited PUBRELs; and to the sessions by the
/// number that it was given. Nothing else of the node changes.
pub proof fn law_welcomes(
    b: &mut Broker,
    entry: &Entry,
    keep_alive: u16,
    will: Option<LastWill>,
    conn: u64,
    file: Option<&[u8]>,
    r: (Client, AttachOutcome),
)
    requires
        call_ensures(Broker::welcome, (b, entry, keep_alive, will, conn, file), r),
        old(b).wf(),
        old(b).registry@.made < u64::MAX,
    ensures
        r.0.id@ == entry.client_id@,
        r.0.identity@ == entry.identity@,
        r.0.keep_alive == keep_alive,
        r.0.will == will,
        r.0.inflight@.len() == 0,
        r.0.session == r.1.session,
        final(b).registry@.clients.contains_pair(entry.client_id@, r.0.session),
        final(b).registry@.all[r.0.session].sink == Some(conn),
        final(b).registry@.all[r.0.session].identity == entry.identity@,
        final(b).metrics == old(b).metrics,
        final(b).policies == old(b).policies,
        final(b).gate == old(b).gate,
        final(b).retained == old(b).retained,
{
    old(b).registry.lemma_coherent();
}

/// When a client's connection has ended, its identity has one connection less and no other
/// identity is touched; its session goes the way of a session whose connection has ended.
pub proof fn law_farewells(
    b: &mut Broker,
    client: &Client,
    epoch: u64,
    clean: bool,
    now: u128,
    r: DetachOutcome,
    other: Seq<char>,
)
    requires
        call_ensures(Broker::farewell, (b, client, epoch, clean, now), r),
        other != client.identity@,
        old(b).registry@.all.dom().contains(client.session),
        old(b).registry@.all[client.session].epoch == epoch,
    ensures
        old(b).gate.conns.count(client.identity@) > 0 ==> final(b).gate.conns.count(
            client.identity@,
        ) == old(b).gate.conns.count(client.identity@) - 1,
        final(b).gate.conns.count(other) == old(b).gate.conns.count(other),
        r.detached,
        clean ==> !final(b).registry@.all.dom().contains(client.session),
        !clean && old(b).registry@.clients.contains_pair(
            old(b).registry@.all[client.session].client_id,
            client.session,
        ) ==> {
            let s = final(b).registry@.all[client.session];
            &&& final(b).registry@.all.dom().contains(client.session)
            &&& s.sink is None && s.offline_since == Some(now)
            &&& s.subs == old(b).registry@.all[client.session].subs
            &&& s.queue == old(b).registry@.all[client.session].queue
        },
        final(b).metrics == old(b).metrics,
        final(b).retained == old(b).retained,
        final(b).policies == old(b).policies,
{
}

/// Only a sending that has timed out, on the session's own connection, counts as the
/// eviction of a slow consumer.
pub proof fn law_evictions_are_counted(
    b: &mut Broker,
    h: u64,
    conn: u64,
    timed_out: bool,
    now: u128,
    r: (bool, Option<u64>),
)
    requires
        call_ensures(Broker::send_failed, (b, h, conn, timed_out, now), r),
        old(b).metrics.slow_consumer_evictions_total < u64::MAX,
    ensures
        r.0 <==> timed_out && old(b).registry@.all.dom().contains(h)
            && old(b).registry@.all[h].sink == Some(conn),
        final(b).metrics.slow_consumer_evictions_total
            == old(b).metrics.slow_consumer_evictions_total + (if r.0 {
            1int
        } else {
            0int
        }),
        final(b).metrics.messages_out_total == old(b).metrics.messages_out_total,
        r.0 ==> r.1 == old(b).registry@.all[h].kick,
        !r.0 ==> r.1 is None,
{
}

/// A session that is restored from its files is known as offline, under its client and
/// identity, and exactly the subscriptions that its identity may have today come back.
pub proof fn law_rehydrated_sessions(
    b: &mut Broker,
    kept: &SubsFile,
    queue: Option<&[u8]>,
    now: u128,
    r: (u64, Vec<(String, QoS)>),
)
    requires
        call_ensures(Broker::rehydrate, (b, kept, queue, now), r),
        !old(b).registry@.clients.dom().contains(kept.client_id@),
    ensures
        final(b).registry@.clients.contains_pair(kept.client_id@, r.0),
        final(b).registry@.all[r.0].sink is None,
        final(b).registry@.all[r.0].offline_since == Some(now),
        final(b).registry@.all[r.0].identity == kept.identity@,
        packet::asked(r.1@) == durable::still_granted(
            old(b).policies@.acl,
            kept.identity@,
            kept@.subs,
        ),
        final(b).policies == old(b).policies,
        final(b).metrics == old(b).metrics,
{
}

/// The gauges of a node are its open connections, its retained messages and scans, and the
/// counts of its sessions.
pub proof fn law_gauges(b: &Broker, g: Gauges, stats: (u64, u64, u64, u64))
    requires
        call_ensures(Broker::gauges, (b,), g),
        call_ensures(SessionRegistry::stats, (&b.registry,), stats),
    ensures
        g.connections == b.conns.open(),
        g.retained_messages == b.retained@.len(),
        g.retained_scans == b.retained.scans(),
        g.sessions == stats.0,
        g.sessions_offline == stats.1,
        g.queue_depth == stats.2,
        g.queue_dropped == stats.3,
{
    let reg = b.registry@;
    let ids = choose|ids: Seq<Seq<char>>| #[trigger]
        registry::enumerates(reg, ids) && g.sessions == ids.len() && g.sessions_offline
            == registry::offline_count(reg, ids) && g.queue_depth == registry::queued_count(
            reg,
            ids,
        ) % 0x1_0000_0000_0000_0000 && g.queue_dropped == registry::dropped_count(reg, ids)
            % 0x1_0000_0000_0000_0000;
    let others = choose|ids: Seq<Seq<char>>| #[trigger]
        registry::enumerates(reg, ids) && stats.0 == ids.len() && stats.1
            == registry::offline_count(reg, ids) && stats.2 == registry::queued_count(reg, ids)
            % 0x1_0000_0000_0000_0000 && stats.3 == registry::dropped_count(reg, ids)
            % 0x1_0000_0000_0000_0000;
    session_laws::law_counts_are_determined(reg, ids, others);
}

/// A node that takes in another configuration changes its policies and nothing else; it
/// refuses one with an unusable schema and stays as it is.
pub proof fn law_reloads(b: &mut Broker, cfg: NodeConfig, r: Result<(), String>)
    requires
        call_ensures(Broker::reload, (b, cfg), r),
    ensures
        r is Ok <==> schema::first_fault(cfg.schema@) is None,
        r is Err ==> *final(b) == *old(b),
        r is Ok ==> {
            let p = final(b).policies@;
            &&& p.auth == auth::auth_rules(cfg.auth)
            &&& p.acl.0 == cfg.acl@
            &&& p.acl.1 <==> cfg.auth.default_policy is Allow
            &&& p.schema == cfg.schema@
            &&& p.staleness.0 == cfg.staleness@
            &&& p.staleness.1 == cfg.retained_staleness_secs
            &&& p.quota == cfg.quota@
        },
        final(b).registry == old(b).registry,
        final(b).retained == old(b).retained,
        final(b).metrics == old(b).metrics,
        final(b).gate == old(b).gate,
        final(b).conns == old(b).conns,
        final(b).node == old(b).node,
{
}

/// A node that holds the client kicks its connection and answers with its own name; one
/// that does not, or is asked for nobody, gives no answer and changes nothing.
pub proof fn law_disconnect_answers(
    registry: &mut SessionRegistry,
    client_id: Option<&str>,
    node: &str,
    r: Option<(u64, String)>,
)
    requires
        call_ensures(ctl::answer, (registry, client_id, node), r),
        old(registry).wf(),
    ensures
        client_id is None ==> r is None,
        client_id matches Some(id) ==> {
            let before = old(registry)@;
            let h = before.clients[id@];
            let held = before.clients.dom().contains(id@) && before.all[h].kick is Some;
            &&& r is Some <==> held
            &&& r matches Some((conn, reply)) ==> {
                &&& before.all[h].kick == Some(conn)
                &&& reply@ == "kicked node="@ + node@
                &&& final(registry)@.all =~= before.all.insert(
                    h,
                    Session {
                        kick_reason: Some("disconnected on request of a control center"@),
                        ..before.all[h]
                    },
                )
            }
        },
        r is None ==> final(registry)@ == old(registry)@,
{
}

/// The outcome of a request to disconnect a client, in words, names the client and the
/// node that held it.
pub proof fn law_disconnect_reports(client_id: &str, outcome: &DisconnectOutcome, r: String)
    requires
        call_ensures(ctl::report, (client_id, outcome), r),
    ensures
        outcome is NotFound ==> r@ == "not found: no node in the mesh currently holds client "@
            + text::quoted(client_id@),
        *outcome matches DisconnectOutcome::Kicked { node } ==> r@ == "kicked: client "@
            + text::quoted(client_id@) + " was connected to node "@ + text::quoted(node@),
{
}


/// The metrics endpoint answers every request with the page.
pub proof fn law_metrics_replies(
    m: &Metrics,
    g: &Gauges,
    node: &str,
    r: String,
    page: String,
    body: &str,
    whole: String,
)
    requires
        call_ensures(metrics::respond, (m, g, node), r),
        call_ensures(metrics::render, (m, g, node), page),
        body@ == page@,
        call_ensures(http::response, ("200 OK", metrics::CONTENT_TYPE, body), whole),
    ensures
        r@ == whole@,
{
}

/// The settings of a node that is not configured: every limit has its usual value, and
/// what has to be asked for is off.
pub proof fn law_default_settings(c: NodeConfig)
    requires
        call_ensures(NodeConfig::default, (), c),
    ensures
        c.id@ == "entmoot-0"@,
        c.mqtt_listen@ == "0.0.0.0:1883"@,
        c.zenoh_listen@.len() == 1,
        c.zenoh_listen@[0]@ == "tcp/0.0.0.0:7447"@,
        c.peers@.len() == 0,
        c.scope@.len() == 0,
        c.max_packet_size == 256 * 1024,
        c.max_connections == 10_000,
        c.max_publish_rate == 0,
        c.data_dir is None,
        c.metrics_listen is None,
        c.health_listen is None,
        c.session_expiry_secs == 24 * 60 * 60,
        c.max_queued_per_session == 1000,
        c.slow_consumer_grace_ms == 5000,
        c.sys_interval_secs == 10,
        c.connect_admission_rate == 0,
        c.connect_admission_burst == 0,
        c.churn_max_reconnects == 0,
        c.churn_window_secs == 60,
        c.churn_cooldown_secs == 300,
        c.retained_staleness_secs == 0,
        c.staleness@.len() == 0,
        c.zenoh_link_mtu is None,
        c.tls is None,
        c.schema@.len() == 0,
        c.quota@.len() == 0,
{
    assert(text::texts(c.zenoh_listen@).len() == c.zenoh_listen@.len());
    assert(text::texts(c.zenoh_listen@)[0] == c.zenoh_listen@[0]@);
}

/// A rule that names nobody is for everyone and grants nothing; a publish that fails its
/// schema is dropped unless the rule says otherwise; the identity in a token is its subject.
pub proof fn law_default_rules(
    rule: config::AclRule,
    action: config::SchemaFailAction,
    claim: String,
    m: Metrics,
)
    requires
        call_ensures(config::AclRule::default, (), rule),
        call_ensures(config::SchemaFailAction::default, (), action),
        call_ensures(config::default_jwt_identity_claim, (), claim),
        call_ensures(Metrics::default, (), m),
    ensures
        rule.user@ == "*"@,
        rule.publish@.len() == 0,
        rule.subscribe@.len() == 0,
        action is Drop,
        claim@ == "sub"@,
        m.connections_total == 0,
        m.connect_refused_total == 0,
        m.connect_shed_total == 0,
        m.churn_quarantined_total == 0,
        m.quota_refused_total == 0,
        m.messages_in_total == 0,
        m.messages_out_total == 0,
        m.messages_queued_total == 0,
        m.publish_denied_total == 0,
        m.subscribe_denied_total == 0,
        m.schema_denied_total == 0,
        m.subscribes_total == 0,
        m.stale_retained_total == 0,
        m.rate_limit_disconnects_total == 0,
        m.slow_consumer_evictions_total == 0,
{
}


/// A stat lies on the `@sys` key that names the node and the stat, inside the scope.
pub proof fn law_stat_keys(path: Seq<char>, node: Seq<char>, scope: Seq<char>)
    ensures
        scope.len() == 0 ==> metrics::stat_key(path, node, scope) == "@sys/broker/"@ + node + "/"@
            + path,
        scope.len() > 0 ==> metrics::stat_key(path, node, scope) == scope + "/@sys/broker/"@ + node
            + "/"@ + path,
{
    reveal_strlit("@sys");
    reveal_strlit("broker/");
    reveal_strlit("@sys/broker/");
    reveal_strlit("/@sys/broker/");
    let key = metrics::stat_key(path, node, scope);
    if scope.len() == 0 {
        assert(key =~= "@sys/broker/"@ + node + "/"@ + path);
    } else {
        assert(key =~= scope + "/@sys/broker/"@ + node + "/"@ + path);
    }
}

} // verus!
