//! Node counters, the Prometheus text page, and the node stats on `$SYS`.

use crate::http::{self, response};
use crate::text::{self, decimal_text};
use crate::topic::{self, sys_keyexpr, SYS_CHUNK};
use vstd::prelude::*;
use vstd::string::*;

verus! {

/// Counters since the start of the node.
#[derive(Debug, Clone, Copy)]
pub struct Metrics {
    pub connections_total: u64,
    pub connect_refused_total: u64,
    pub connect_shed_total: u64,
    pub churn_quarantined_total: u64,
    pub quota_refused_total: u64,
    pub messages_in_total: u64,
    pub messages_out_total: u64,
    pub messages_queued_total: u64,
    pub publish_denied_total: u64,
    pub subscribe_denied_total: u64,
    pub schema_denied_total: u64,
    pub subscribes_total: u64,
    pub stale_retained_total: u64,
    pub rate_limit_disconnects_total: u64,
    pub slow_consumer_evictions_total: u64,
}

impl Default for Metrics {
    fn default() -> (r: Self)
        ensures
            r == zero_metrics(),
    {
        Metrics {
            connections_total: 0,
            connect_refused_total: 0,
            connect_shed_total: 0,
            churn_quarantined_total: 0,
            quota_refused_total: 0,
            messages_in_total: 0,
            messages_out_total: 0,
            messages_queued_total: 0,
            publish_denied_total: 0,
            subscribe_denied_total: 0,
            schema_denied_total: 0,
            subscribes_total: 0,
            stale_retained_total: 0,
            rate_limit_disconnects_total: 0,
            slow_consumer_evictions_total: 0,
        }
    }
}

/// Nothing counted yet.
pub open spec fn zero_metrics() -> Metrics {
    Metrics {
        connections_total: 0,
        connect_refused_total: 0,
        connect_shed_total: 0,
        churn_quarantined_total: 0,
        quota_refused_total: 0,
        messages_in_total: 0,
        messages_out_total: 0,
        messages_queued_total: 0,
        publish_denied_total: 0,
        subscribe_denied_total: 0,
        schema_denied_total: 0,
        subscribes_total: 0,
        stale_retained_total: 0,
        rate_limit_disconnects_total: 0,
        slow_consumer_evictions_total: 0,
    }
}

/// A counter after one event more; it wraps at 64 bits.
pub open spec fn bumped(n: u64) -> u64 {
    if n == u64::MAX {
        0
    } else {
        (n + 1) as u64
    }
}

impl Metrics {
    /// Counts one event.
    pub fn bump(counter: &mut u64)
        ensures
            *final(counter) == bumped(*old(counter)),
    {
        *counter = counter.wrapping_add(1);
    }
}

/// The current state of the node beside its counters.
#[derive(Debug, Clone, Copy)]
pub struct Gauges {
    /// Open MQTT connections.
    pub connections: u64,
    /// Scans of the retained store.
    pub retained_scans: u64,
    /// Retained messages on this node.
    pub retained_messages: u64,
    /// Known sessions, connected and offline.
    pub sessions: u64,
    /// Offline persistent sessions.
    pub sessions_offline: u64,
    /// Messages queued for offline sessions.
    pub queue_depth: u64,
    /// Messages dropped from full queues.
    pub queue_dropped: u64,
}

/// One metric of the page.
#[derive(Debug, Clone, Copy)]
pub struct Row {
    pub name: &'static str,
    pub kind: &'static str,
    pub help: &'static str,
    pub value: u64,
}

/// The metrics in page order.
pub open spec fn rows_of(m: Metrics, g: Gauges) -> Seq<Row> {
    seq![
        Row {
            name: "connections_current",
            kind: "gauge",
            help: "Open MQTT connections",
            value: g.connections,
        },
        Row {
            name: "connections_total",
            kind: "counter",
            help: "MQTT connections accepted since start",
            value: m.connections_total,
        },
        Row {
            name: "connect_refused_total",
            kind: "counter",
            help: "CONNECTs refused (auth)",
            value: m.connect_refused_total,
        },
        Row {
            name: "connect_shed_total",
            kind: "counter",
            help: "CONNECTs shed by admission control (reconnect-storm protection)",
            value: m.connect_shed_total,
        },
        Row {
            name: "churn_quarantined_total",
            kind: "counter",
            help: "CONNECTs refused because that client id was reconnecting too often",
            value: m.churn_quarantined_total,
        },
        Row {
            name: "quota_refused_total",
            kind: "counter",
            help: "CONNECTs refused because that identity was already at its per-identity connection quota",
            value: m.quota_refused_total,
        },
        Row {
            name: "messages_in_total",
            kind: "counter",
            help: "PUBLISH packets accepted from clients",
            value: m.messages_in_total,
        },
        Row {
            name: "messages_out_total",
            kind: "counter",
            help: "PUBLISH packets delivered to clients",
            value: m.messages_out_total,
        },
        Row {
            name: "messages_queued_total",
            kind: "counter",
            help: "Messages queued for offline sessions",
            value: m.messages_queued_total,
        },
        Row {
            name: "publish_denied_total",
            kind: "counter",
            help: "Publishes dropped by ACL",
            value: m.publish_denied_total,
        },
        Row {
            name: "schema_denied_total",
            kind: "counter",
            help: "Publishes that failed data-validation schema checks",
            value: m.schema_denied_total,
        },
        Row {
            name: "subscribe_denied_total",
            kind: "counter",
            help: "Subscriptions refused by ACL or validation",
            value: m.subscribe_denied_total,
        },
        Row {
            name: "subscribes_total",
            kind: "counter",
            help: "Subscriptions granted",
            value: m.subscribes_total,
        },
        Row {
            name: "retained_scans_total",
            kind: "counter",
            help: "Retained-store scans performed (denominator for the reconnect-storm coalescing ratio: scans / subscribes_total)",
            value: g.retained_scans,
        },
        Row {
            name: "stale_retained_total",
            kind: "counter",
            help: "Retained deliveries flagged stale on $meta/<topic> (partition-heal staleness bound exceeded)",
            value: m.stale_retained_total,
        },
        Row {
            name: "rate_limit_disconnects_total",
            kind: "counter",
            help: "Clients disconnected for exceeding the publish rate",
            value: m.rate_limit_disconnects_total,
        },
        Row {
            name: "slow_consumer_evictions_total",
            kind: "counter",
            help: "Clients evicted because their outbound queue stayed full",
            value: m.slow_consumer_evictions_total,
        },
        Row {
            name: "retained_messages",
            kind: "gauge",
            help: "Retained messages replicated on this node",
            value: g.retained_messages,
        },
        Row {
            name: "sessions",
            kind: "gauge",
            help: "Known MQTT sessions (connected + offline persistent)",
            value: g.sessions,
        },
        Row {
            name: "sessions_offline",
            kind: "gauge",
            help: "Offline persistent sessions",
            value: g.sessions_offline,
        },
        Row {
            name: "session_queue_depth",
            kind: "gauge",
            help: "QoS 1 messages currently queued for offline sessions",
            value: g.queue_depth,
        },
        Row {
            name: "session_queue_dropped_total",
            kind: "counter",
            help: "Messages dropped from full offline queues",
            value: g.queue_dropped,
        },
    ]
}

/// A metric in the Prometheus text format, labelled with the node.
pub open spec fn row_text(row: Row, node: Seq<char>) -> Seq<char> {
    "# HELP entmoot_"@ + row.name@ + " "@ + row.help@ + "\n# TYPE entmoot_"@ + row.name@ + " "@
        + row.kind@ + "\nentmoot_"@ + row.name@ + "{node=\""@ + node + "\"} "@ + text::decimal(
        row.value as nat,
    ) + "\n"@
}

/// Metrics one after the other.
pub open spec fn page_text(rows: Seq<Row>, node: Seq<char>) -> Seq<char>
    decreases rows.len(),
{
    if rows.len() == 0 {
        Seq::empty()
    } else {
        page_text(rows.drop_last(), node) + row_text(rows.last(), node)
    }
}

fn rows(m: &Metrics, g: &Gauges) -> (r: Vec<Row>)
    ensures
        r@ == rows_of(*m, *g),
{
    let r: Vec<Row> = vec![
        Row {
            name: "connections_current",
            kind: "gauge",
            help: "Open MQTT connections",
            value: g.connections,
        },
        Row {
            name: "connections_total",
            kind: "counter",
            help: "MQTT connections accepted since start",
            value: m.connections_total,
        },
        Row {
            name: "connect_refused_total",
            kind: "counter",
            help: "CONNECTs refused (auth)",
            value: m.connect_refused_total,
        },
        Row {
            name: "connect_shed_total",
            kind: "counter",
            help: "CONNECTs shed by admission control (reconnect-storm protection)",
            value: m.connect_shed_total,
        },
        Row {
            name: "churn_quarantined_total",
            kind: "counter",
            help: "CONNECTs refused because that client id was reconnecting too often",
            value: m.churn_quarantined_total,
        },
        Row {
            name: "quota_refused_total",
            kind: "counter",
            help: "CONNECTs refused because that identity was already at its per-identity connection quota",
            value: m.quota_refused_total,
        },
        Row {
            name: "messages_in_total",
            kind: "counter",
            help: "PUBLISH packets accepted from clients",
            value: m.messages_in_total,
        },
        Row {
            name: "messages_out_total",
            kind: "counter",
            help: "PUBLISH packets delivered to clients",
            value: m.messages_out_total,
        },
        Row {
            name: "messages_queued_total",
            kind: "counter",
            help: "Messages queued for offline sessions",
            value: m.messages_queued_total,
        },
        Row {
            name: "publish_denied_total",
            kind: "counter",
            help: "Publishes dropped by ACL",
            value: m.publish_denied_total,
        },
        Row {
            name: "schema_denied_total",
            kind: "counter",
            help: "Publishes that failed data-validation schema checks",
            value: m.schema_denied_total,
        },
        Row {
            name: "subscribe_denied_total",
            kind: "counter",
            help: "Subscriptions refused by ACL or validation",
            value: m.subscribe_denied_total,
        },
        Row {
            name: "subscribes_total",
            kind: "counter",
            help: "Subscriptions granted",
            value: m.subscribes_total,
        },
        Row {
            name: "retained_scans_total",
            kind: "counter",
            help: "Retained-store scans performed (denominator for the reconnect-storm coalescing ratio: scans / subscribes_total)",
            value: g.retained_scans,
        },
        Row {
            name: "stale_retained_total",
            kind: "counter",
            help: "Retained deliveries flagged stale on $meta/<topic> (partition-heal staleness bound exceeded)",
            value: m.stale_retained_total,
        },
        Row {
            name: "rate_limit_disconnects_total",
            kind: "counter",
            help: "Clients disconnected for exceeding the publish rate",
            value: m.rate_limit_disconnects_total,
        },
        Row {
            name: "slow_consumer_evictions_total",
            kind: "counter",
            help: "Clients evicted because their outbound queue stayed full",
            value: m.slow_consumer_evictions_total,
        },
        Row {
            name: "retained_messages",
            kind: "gauge",
            help: "Retained messages replicated on this node",
            value: g.retained_messages,
        },
        Row {
            name: "sessions",
            kind: "gauge",
            help: "Known MQTT sessions (connected + offline persistent)",
            value: g.sessions,
        },
        Row {
            name: "sessions_offline",
            kind: "gauge",
            help: "Offline persistent sessions",
            value: g.sessions_offline,
        },
        Row {
            name: "session_queue_depth",
            kind: "gauge",
            help: "QoS 1 messages currently queued for offline sessions",
            value: g.queue_depth,
        },
        Row {
            name: "session_queue_dropped_total",
            kind: "counter",
            help: "Messages dropped from full offline queues",
            value: g.queue_dropped,
        },
    ];
    assert(r@ =~= rows_of(*m, *g));
    r
}

fn render_row(row: &Row, node: &str) -> (r: String)
    ensures
        r@ == row_text(*row, node@),
{
    let mut out = "# HELP entmoot_".to_owned();
    out.append(row.name);
    out.append(" ");
    out.append(row.help);
    out.append("\n# TYPE entmoot_");
    out.append(row.name);
    out.append(" ");
    out.append(row.kind);
    out.append("\nentmoot_");
    out.append(row.name);
    out.append("{node=\"");
    out.append(node);
    out.append("\"} ");
    out.append(decimal_text(row.value).as_str());
    out.append("\n");
    out
}

/// The metrics page of a node.
pub fn render(m: &Metrics, g: &Gauges, node: &str) -> (r: String)
    ensures
        r@ == page_text(rows_of(*m, *g), node@),
{
    let table = rows(m, g);
    let mut out = String::new();
    let mut i: usize = 0;
    assert(out@ =~= page_text(table@.take(0), node@));
    while i < table.len()
        invariant
            i <= table@.len(),
            out@ == page_text(table@.take(i as int), node@),
        decreases table.len() - i,
    {
        assert(table@.take(i + 1).drop_last() =~= table@.take(i as int));
        let line = render_row(&table[i], node);
        out.append(line.as_str());
        i = i + 1;
    }
    assert(table@.take(i as int) =~= table@);
    out
}

pub const CONTENT_TYPE: &'static str = "text/plain; version=0.0.4; charset=utf-8";

/// The reply of the metrics endpoint; every request gets the page.
pub fn respond(m: &Metrics, g: &Gauges, node: &str) -> (r: String)
    ensures
        r@ == http::response_text(
            "200 OK"@,
            CONTENT_TYPE@,
            page_text(rows_of(*m, *g), node@),
        ),
{
    let page = render(m, g, node);
    response("200 OK", CONTENT_TYPE, page.as_str())
}

/// The node stats: a path under the node's `$SYS` name, and the value there.
pub open spec fn stats_of(
    m: Metrics,
    g: Gauges,
    uptime_secs: u64,
    version: Seq<char>,
) -> Seq<(Seq<char>, Seq<char>)> {
    seq![
        ("clients/connected"@, text::decimal(g.connections as nat)),
        ("messages/received"@, text::decimal(m.messages_in_total as nat)),
        ("messages/sent"@, text::decimal(m.messages_out_total as nat)),
        ("retained/count"@, text::decimal(g.retained_messages as nat)),
        ("sessions/count"@, text::decimal(g.sessions as nat)),
        ("sessions/offline"@, text::decimal(g.sessions_offline as nat)),
        ("uptime/seconds"@, text::decimal(uptime_secs as nat)),
        ("version"@, version),
    ]
}

/// The bus key of a stat.
pub open spec fn stat_key(path: Seq<char>, node: Seq<char>, scope: Seq<char>) -> Seq<char> {
    topic::internal_key(SYS_CHUNK@, "broker/"@ + node + "/"@ + path, scope)
}

/// A list of pairs of texts.
pub open spec fn pair_texts(v: Seq<(String, String)>) -> Seq<(Seq<char>, Seq<char>)> {
    v.map_values(|p: (String, String)| (p.0@, p.1@))
}

/// The messages that publish the node stats: bus keys with their values.
pub fn sys_messages(
    m: &Metrics,
    g: &Gauges,
    uptime_secs: u64,
    version: &str,
    node: &str,
    scope: &str,
) -> (r: Vec<(String, String)>)
    ensures
        pair_texts(r@) == stats_of(*m, *g, uptime_secs, version@).map_values(
            |s: (Seq<char>, Seq<char>)| (stat_key(s.0, node@, scope@), s.1),
        ),
{
    let stats: Vec<(&'static str, String)> = vec![
        ("clients/connected", decimal_text(g.connections)),
        ("messages/received", decimal_text(m.messages_in_total)),
        ("messages/sent", decimal_text(m.messages_out_total)),
        ("retained/count", decimal_text(g.retained_messages)),
        ("sessions/count", decimal_text(g.sessions)),
        ("sessions/offline", decimal_text(g.sessions_offline)),
        ("uptime/seconds", decimal_text(uptime_secs)),
        ("version", version.to_owned()),
    ];
    let ghost want = stats_of(*m, *g, uptime_secs, version@);
    assert(stats@.len() == want.len());
    assert forall|k: int| 0 <= k < want.len() implies stats@[k].0@ == #[trigger] want[k].0
        && stats@[k].1@ == want[k].1 by {}
    let mut out: Vec<(String, String)> = Vec::new();
    let mut i: usize = 0;
    while i < stats.len()
        invariant
            i <= stats@.len(),
            stats@.len() == want.len(),
            forall|k: int|
                0 <= k < want.len() ==> stats@[k].0@ == #[trigger] want[k].0 && stats@[k].1@
                    == want[k].1,
            out@.len() == i,
            forall|k: int|
                0 <= k < i ==> (#[trigger] out@[k]).0@ == stat_key(want[k].0, node@, scope@)
                    && out@[k].1@ == want[k].1,
        decreases stats.len() - i,
    {
        let mut suffix = "broker/".to_owned();
        suffix.append(node);
        suffix.append("/");
        suffix.append(stats[i].0);
        let key = sys_keyexpr(suffix.as_str(), scope);
        assert(want[i as int].0 == stats@[i as int].0@);
        out.push((key, stats[i].1.clone()));
        i = i + 1;
    }
    assert(pair_texts(out@) =~= want.map_values(
        |s: (Seq<char>, Seq<char>)| (stat_key(s.0, node@, scope@), s.1),
    ));
    out
}

} // verus!
