use entmoot::health;
use entmoot::http;
use entmoot::metrics::{self, Gauges, Metrics};

fn gauges() -> Gauges {
    Gauges {
        connections: 3,
        retained_scans: 4,
        retained_messages: 5,
        sessions: 6,
        sessions_offline: 7,
        queue_depth: 8,
        queue_dropped: 9,
    }
}

#[test]
fn a_bump_counts_one_and_wraps() {
    let mut m = Metrics::default();
    Metrics::bump(&mut m.messages_in_total);
    Metrics::bump(&mut m.messages_in_total);
    assert_eq!(m.messages_in_total, 2);
    assert_eq!(m.connections_total, 0);
    m.connections_total = u64::MAX;
    Metrics::bump(&mut m.connections_total);
    assert_eq!(m.connections_total, 0);
}

#[test]
fn the_page_holds_every_metric_in_the_text_format() {
    let mut m = Metrics::default();
    m.quota_refused_total = 12;
    let page = metrics::render(&m, &gauges(), "node-1");
    assert!(page.starts_with(
        "# HELP entmoot_connections_current Open MQTT connections\n\
         # TYPE entmoot_connections_current gauge\n\
         entmoot_connections_current{node=\"node-1\"} 3\n\
         # HELP entmoot_connections_total MQTT connections accepted since start\n"
    ));
    assert!(page.contains("entmoot_quota_refused_total{node=\"node-1\"} 12\n"));
    assert!(page.ends_with(
        "# TYPE entmoot_session_queue_dropped_total counter\n\
         entmoot_session_queue_dropped_total{node=\"node-1\"} 9\n"
    ));
    assert_eq!(page.lines().count(), 66);
}

#[test]
fn the_metrics_reply_counts_bytes() {
    let page = metrics::render(&Metrics::default(), &gauges(), "knödel");
    let reply = metrics::respond(&Metrics::default(), &gauges(), "knödel");
    assert_eq!(
        reply,
        format!(
            "HTTP/1.1 200 OK\r\nContent-Type: text/plain; version=0.0.4; charset=utf-8\r\nContent-Length: {}\r\nConnection: close\r\n\r\n{page}",
            page.len()
        )
    );
}

#[test]
fn node_stats_go_to_the_sys_keyspace() {
    let mut m = Metrics::default();
    m.messages_in_total = 41;
    let stats = metrics::sys_messages(&m, &gauges(), 77, "0.1.0", "node-1", "plant-a");
    assert_eq!(stats.len(), 8);
    assert_eq!(stats[0], ("plant-a/@sys/broker/node-1/clients/connected".to_string(), "3".to_string()));
    assert_eq!(stats[1], ("plant-a/@sys/broker/node-1/messages/received".to_string(), "41".to_string()));
    assert_eq!(stats[6], ("plant-a/@sys/broker/node-1/uptime/seconds".to_string(), "77".to_string()));
    assert_eq!(stats[7], ("plant-a/@sys/broker/node-1/version".to_string(), "0.1.0".to_string()));
}

#[test]
fn health_paths() {
    let ok = health::respond(b"GET /healthz HTTP/1.1\r\nHost: x\r\n\r\n", "n1", "z1");
    assert_eq!(
        ok,
        "HTTP/1.1 200 OK\r\nContent-Type: text/plain; charset=utf-8\r\nContent-Length: 3\r\nConnection: close\r\n\r\nok\n"
    );
    let ready = health::respond(b"GET /readyz\r\n", "n1", "z1");
    assert!(ready.starts_with("HTTP/1.1 200 OK\r\n"));
    assert!(ready.ends_with("\r\n\r\nready node=n1 zid=z1\n"));
    for request in [&b""[..], b"\n", b"GET", b"GET /other HTTP/1.1", b"\xff\xfe"] {
        let missing = health::respond(request, "n1", "z1");
        assert!(missing.starts_with("HTTP/1.1 404 Not Found\r\n"), "{missing}");
        assert!(missing.ends_with("\r\n\r\nnot found\n"));
    }
    // Invalid bytes after the path do not hide it.
    assert!(health::respond(b"GET /healthz \xff\n", "n1", "z1").starts_with("HTTP/1.1 200 OK"));
}

#[test]
fn request_paths_are_the_second_word_of_the_first_line() {
    assert_eq!(http::path_of("GET /a b\nGET /c"), "/a");
    assert_eq!(http::path_of("  GET\u{2003}/a\u{a0}b"), "/a");
    assert_eq!(http::path_of("GET\n/a"), "/");
    assert_eq!(http::path_of(""), "/");
}
