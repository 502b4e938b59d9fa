//! Node configuration: the settings, their defaults, and the command-line
//! overrides on top of them.

use crate::text::{self, chars_of, has_char, split_on};
use vstd::prelude::*;
use vstd::string::*;

verus! {

#[derive(Debug, Clone)]
pub struct NodeConfig {
    /// Stable node identity (shows up in logs, metrics, and $SYS topics).
    pub id: String,
    /// Plain MQTT listener, e.g. "0.0.0.0:1883".
    pub mqtt_listen: String,
    /// Bus endpoints this node listens on for peers, e.g. "tcp/0.0.0.0:7447".
    pub zenoh_listen: Vec<String>,
    /// Bus endpoints of peer nodes to connect to, e.g. "tcp/10.0.0.2:7447".
    pub peers: Vec<String>,
    /// Optional bus namespace prefix isolating the MQTT namespace on a shared fabric.
    pub scope: String,
    /// Maximum accepted MQTT packet size in bytes.
    pub max_packet_size: usize,
    /// Maximum concurrent MQTT connections (plain + TLS combined).
    pub max_connections: usize,
    /// Per-connection inbound PUBLISH rate limit in messages/second
    /// (burst = one second's worth). 0 disables. Violators are disconnected.
    pub max_publish_rate: u32,
    /// Directory for node-local state. Absent = memory only.
    pub data_dir: Option<String>,
    /// Prometheus text endpoint, e.g. "0.0.0.0:9464". Absent = no metrics.
    pub metrics_listen: Option<String>,
    /// Health endpoint, e.g. "0.0.0.0:9465". Serves /healthz and /readyz.
    /// Absent = no health endpoint.
    pub health_listen: Option<String>,
    /// Seconds an offline persistent session (cleanSession=0) is kept before
    /// its subscriptions and queue are discarded. 0 = never expire.
    pub session_expiry_secs: u64,
    /// Maximum QoS 1 messages queued for an offline persistent session;
    /// oldest are dropped beyond this.
    pub max_queued_per_session: usize,
    /// How long a client's full outbound queue may stall delivery before the
    /// client is evicted as a slow consumer. 0 = never evict.
    pub slow_consumer_grace_ms: u64,
    /// Interval for publishing node stats on `$SYS/broker/<id>/...`. 0 = disabled.
    pub sys_interval_secs: u64,
    /// Maximum rate (per second) at which new CONNECTs are admitted,
    /// independent of `max_connections`. 0 = unlimited.
    pub connect_admission_rate: u32,
    /// Burst allowance for `connect_admission_rate`; clamped up to at least
    /// the rate itself. Ignored when the rate is 0.
    pub connect_admission_burst: u32,
    /// A client reconnecting more than this many times within
    /// `churn_window_secs` is quarantined for `churn_cooldown_secs`. 0 = disabled.
    pub churn_max_reconnects: u32,
    /// Rolling window (seconds) `churn_max_reconnects` is measured over.
    pub churn_window_secs: u64,
    /// How long a flapping client is quarantined once caught.
    pub churn_cooldown_secs: u64,
    /// Default staleness bound (seconds) for retained-message delivery: a retained
    /// value older than this is flagged by a `$meta/<topic>` companion. 0 = disabled.
    pub retained_staleness_secs: u64,
    /// Per-topic-filter overrides for `retained_staleness_secs`; the first
    /// matching rule (in list order) wins, else the default above applies.
    pub staleness: Vec<StalenessRule>,
    /// Caps the bus's own wire batch size (its MTU equivalent) in bytes.
    /// Absent = the bus's own default.
    pub zenoh_link_mtu: Option<u16>,
    /// MQTT-over-TLS listener; absent = plain MQTT only.
    pub tls: Option<TlsConfig>,
    pub auth: AuthConfig,
    /// Grants consulted when `auth.default_policy` is deny.
    pub acl: Vec<AclRule>,
    /// Data-validation rules: publishes on a matching topic must conform to
    /// the given JSON Schema, or `on_fail` applies. First matching rule wins;
    /// topics matching none are unvalidated.
    pub schema: Vec<SchemaRule>,
    /// Per-identity caps on concurrent connections.
    pub quota: Vec<QuotaRule>,
}

impl Default for NodeConfig {
    fn default() -> (c: Self)
        ensures
            c.id@ == "entmoot-0"@,
            c.mqtt_listen@ == "0.0.0.0:1883"@,
            text::texts(c.zenoh_listen@) == seq!["tcp/0.0.0.0:7447"@],
            c.peers@.len() == 0,
            c.scope@.len() == 0,
            c.max_packet_size == 262144,
            c.max_connections == 10000,
            c.max_publish_rate == 0,
            c.data_dir is None,
            c.metrics_listen is None,
            c.health_listen is None,
            c.session_expiry_secs == 86400,
            c.max_queued_per_session == 1000,
            c.slow_consumer_grace_ms == 5000,
            c.sys_interval_secs == 10,
            c.connect_admission_rate == 0,
            c.connect_admission_burst == 0,
            c.churn_max_reconnects == 0,
            c.churn_window_secs == 60,
            c.churn_cooldown_secs == 300,
            c.retained_staleness_secs == 0,
            c.staleness@.len() == 0,
            c.zenoh_link_mtu is None,
            c.tls is None,
            c.auth.is_default(),
            c.acl@.len() == 0,
            c.schema@.len() == 0,
            c.quota@.len() == 0,
    {
        let mut zenoh_listen: Vec<String> = Vec::new();
        zenoh_listen.push("tcp/0.0.0.0:7447".to_owned());
        assert(text::texts(zenoh_listen@) =~= seq!["tcp/0.0.0.0:7447"@]);
        NodeConfig {
            id: "entmoot-0".to_owned(),
            mqtt_listen: "0.0.0.0:1883".to_owned(),
            zenoh_listen,
            peers: Vec::new(),
            scope: String::new(),
            max_packet_size: 256 * 1024,
            max_connections: 10_000,
            max_publish_rate: 0,
            data_dir: None,
            metrics_listen: None,
            health_listen: None,
            session_expiry_secs: 24 * 60 * 60,
            max_queued_per_session: 1000,
            slow_consumer_grace_ms: 5000,
            sys_interval_secs: 10,
            connect_admission_rate: 0,
            connect_admission_burst: 0,
            churn_max_reconnects: 0,
            churn_window_secs: 60,
            churn_cooldown_secs: 300,
            retained_staleness_secs: 0,
            staleness: Vec::new(),
            zenoh_link_mtu: None,
            tls: None,
            auth: AuthConfig::default(),
            acl: Vec::new(),
            schema: Vec::new(),
            quota: Vec::new(),
        }
    }
}

#[derive(Debug, Clone)]
pub struct TlsConfig {
    pub listen: String,
    /// PEM certificate chain.
    pub cert_file: String,
    /// PEM private key.
    pub key_file: String,
    /// PEM CA bundle for client certificates (mTLS). When set, TLS clients
    /// MUST present a certificate signed by this CA, and the certificate's
    /// Common Name becomes the client's identity for ACLs (any MQTT
    /// username/password is ignored).
    pub client_ca_file: Option<String>,
}

/// The TLS listener where the configuration names none.
pub fn default_tls_listen() -> (r: String)
    ensures
        r@ == "0.0.0.0:8883"@,
{
    "0.0.0.0:8883".to_owned()
}

#[derive(Debug, Clone)]
pub struct AuthConfig {
    /// Accept clients that present no username.
    pub allow_anonymous: bool,
    /// Allow: ACL entries are ignored, everything is permitted.
    /// Deny: only topics granted by an ACL entry are permitted.
    pub default_policy: Policy,
    pub users: Vec<UserCred>,
    /// Bearer-token auth: when a CONNECT's username does not match a local
    /// user, its password is tried as a JWT.
    pub jwt: Option<JwtConfig>,
}

impl AuthConfig {
    /// The open default: anonymous clients, everything permitted.
    pub open spec fn is_default(&self) -> bool {
        &&& self.allow_anonymous
        &&& self.default_policy == Policy::Allow
        &&& self.users@.len() == 0
        &&& self.jwt is None
    }
}

impl Default for AuthConfig {
    fn default() -> (c: Self)
        ensures
            c.is_default(),
    {
        AuthConfig {
            allow_anonymous: true,
            default_policy: Policy::Allow,
            users: Vec::new(),
            jwt: None,
        }
    }
}

#[derive(Debug, Clone)]
pub struct JwtConfig {
    /// HMAC-SHA256 shared secret used to verify token signatures.
    pub hmac_secret: String,
    /// Claim whose value becomes the authenticated identity.
    pub identity_claim: String,
    /// Required `iss` claim, if any.
    pub issuer: Option<String>,
    /// Required `aud` claim, if any.
    pub audience: Option<String>,
}

/// The identity claim where the configuration names none.
pub fn default_jwt_identity_claim() -> (r: String)
    ensures
        r@ == "sub"@,
{
    "sub".to_owned()
}

#[derive(Debug, Clone, Copy, PartialEq, Eq, Structural)]
pub enum Policy {
    Allow,
    Deny,
}

#[derive(Debug, Clone)]
pub struct UserCred {
    pub name: String,
    /// Hex SHA-256 of the password.
    pub password_sha256: String,
}

#[derive(Debug, Clone)]
pub struct AclRule {
    /// Username this rule applies to; "*" matches every identity, including
    /// anonymous clients.
    pub user: String,
    /// MQTT topic filters this identity may publish to.
    pub publish: Vec<String>,
    /// MQTT topic filters this identity may subscribe to (a requested filter
    /// must be *covered* by a granted one; `plant/#` covers `plant/+/temp`).
    pub subscribe: Vec<String>,
}

impl Default for AclRule {
    fn default() -> (r: Self)
        ensures
            r.user@ == "*"@,
            r.publish@.len() == 0,
            r.subscribe@.len() == 0,
    {
        AclRule { user: "*".to_owned(), publish: Vec::new(), subscribe: Vec::new() }
    }
}

#[derive(Debug, Clone)]
pub struct StalenessRule {
    /// MQTT topic filter (may use `+`/`#`) this bound applies to.
    pub filter: String,
    /// Seconds after which a retained value on a matching topic is flagged
    /// stale on delivery.
    pub bound_secs: u64,
}

#[derive(Debug, Clone)]
pub struct SchemaRule {
    /// MQTT topic filter (may use `+`/`#`) this schema applies to.
    pub filter: String,
    /// Inline JSON Schema text. A publish on a matching topic must parse as
    /// JSON and validate against it.
    pub schema: String,
    /// What to do with a publish that fails validation (or is not JSON at all).
    pub on_fail: SchemaFailAction,
}

#[derive(Debug, Clone, Copy, PartialEq, Eq, Structural)]
pub enum SchemaFailAction {
    /// Drop the publish; it is acknowledged all the same.
    Drop,
    /// Disconnect the client.
    Disconnect,
}

impl Default for SchemaFailAction {
    fn default() -> (r: Self)
        ensures
            r == SchemaFailAction::Drop,
    {
        SchemaFailAction::Drop
    }
}

#[derive(Debug, Clone)]
pub struct QuotaRule {
    /// Identity this cap applies to; "*" applies to every identity without a
    /// rule of its own.
    pub user: String,
    /// Maximum concurrent connections; 0 = unlimited.
    pub max_connections: usize,
}

/// Command-line settings that take precedence over the configuration file.
#[derive(Debug, Clone)]
pub struct Overrides {
    pub id: Option<String>,
    pub mqtt: Option<String>,
    pub zenoh_listen: Vec<String>,
    pub peers: Vec<String>,
    /// Bus endpoint of the ordinal-0 node; becomes a peer of every other node.
    pub peer_zero: Option<String>,
    pub scope: Option<String>,
    pub max_packet_size: Option<usize>,
    pub connect_admission_rate: Option<u32>,
    pub connect_admission_burst: Option<u32>,
    pub retained_staleness_secs: Option<u64>,
    pub zenoh_link_mtu: Option<u16>,
    pub churn_max_reconnects: Option<u32>,
    pub churn_window_secs: Option<u64>,
    pub churn_cooldown_secs: Option<u64>,
}

/// The override where there is one, else what the file said.
pub open spec fn either<T>(o: Option<T>, base: T) -> T {
    match o {
        Some(v) => v,
        None => base,
    }
}

/// A list given on the command line replaces the configured one; an empty one does not.
pub open spec fn either_list(o: Vec<String>, base: Vec<String>) -> Vec<String> {
    if o@.len() > 0 {
        o
    } else {
        base
    }
}

/// The configuration that the node runs with: `file` under the overrides `o`.
/// The ordinal-0 endpoint is added to the peers unless it names this very node.
pub fn apply_overrides(file: NodeConfig, o: Overrides) -> (c: NodeConfig)
    ensures
        c.id == either(o.id, file.id),
        c.mqtt_listen == either(o.mqtt, file.mqtt_listen),
        c.zenoh_listen == either_list(o.zenoh_listen, file.zenoh_listen),
        c.peers@ == (match o.peer_zero {
            Some(seed) => if names_node(seed@, c.id@) {
                either_list(o.peers, file.peers)@
            } else {
                either_list(o.peers, file.peers)@.push(seed)
            },
            None => either_list(o.peers, file.peers)@,
        }),
        c.scope == either(o.scope, file.scope),
        c.max_packet_size == either(o.max_packet_size, file.max_packet_size),
        c.connect_admission_rate == either(o.connect_admission_rate, file.connect_admission_rate),
        c.connect_admission_burst == either(
            o.connect_admission_burst,
            file.connect_admission_burst,
        ),
        c.retained_staleness_secs == either(
            o.retained_staleness_secs,
            file.retained_staleness_secs,
        ),
        c.zenoh_link_mtu == (if o.zenoh_link_mtu is Some {
            o.zenoh_link_mtu
        } else {
            file.zenoh_link_mtu
        }),
        c.churn_max_reconnects == either(o.churn_max_reconnects, file.churn_max_reconnects),
        c.churn_window_secs == either(o.churn_window_secs, file.churn_window_secs),
        c.churn_cooldown_secs == either(o.churn_cooldown_secs, file.churn_cooldown_secs),
        c.max_connections == file.max_connections,
        c.max_publish_rate == file.max_publish_rate,
        c.data_dir == file.data_dir,
        c.metrics_listen == file.metrics_listen,
        c.health_listen == file.health_listen,
        c.session_expiry_secs == file.session_expiry_secs,
        c.max_queued_per_session == file.max_queued_per_session,
        c.slow_consumer_grace_ms == file.slow_consumer_grace_ms,
        c.sys_interval_secs == file.sys_interval_secs,
        c.staleness == file.staleness,
        c.tls == file.tls,
        c.auth == file.auth,
        c.acl == file.acl,
        c.schema == file.schema,
        c.quota == file.quota,
{
    let id = pick(o.id, file.id);
    let mut peers = if o.peers.len() > 0 {
        o.peers
    } else {
        file.peers
    };
    match o.peer_zero {
        Some(seed) => {
            if !is_peer_zero_self(seed.as_str(), id.as_str()) {
                peers.push(seed);
            }
        },
        None => {},
    }
    let zenoh_listen = if o.zenoh_listen.len() > 0 {
        o.zenoh_listen
    } else {
        file.zenoh_listen
    };
    let zenoh_link_mtu = if o.zenoh_link_mtu.is_some() {
        o.zenoh_link_mtu
    } else {
        file.zenoh_link_mtu
    };
    NodeConfig {
        id,
        mqtt_listen: pick(o.mqtt, file.mqtt_listen),
        zenoh_listen,
        peers,
        scope: pick(o.scope, file.scope),
        max_packet_size: pick(o.max_packet_size, file.max_packet_size),
        connect_admission_rate: pick(o.connect_admission_rate, file.connect_admission_rate),
        connect_admission_burst: pick(o.connect_admission_burst, file.connect_admission_burst),
        retained_staleness_secs: pick(o.retained_staleness_secs, file.retained_staleness_secs),
        zenoh_link_mtu,
        churn_max_reconnects: pick(o.churn_max_reconnects, file.churn_max_reconnects),
        churn_window_secs: pick(o.churn_window_secs, file.churn_window_secs),
        churn_cooldown_secs: pick(o.churn_cooldown_secs, file.churn_cooldown_secs),
        ..file
    }
}

fn pick<T>(o: Option<T>, base: T) -> (r: T)
    ensures
        r == either(o, base),
{
    match o {
        Some(v) => v,
        None => base,
    }
}

/// What follows the first `c` of `s`; all of `s` where there is no `c`.
pub open spec fn after_first(s: Seq<char>, c: char) -> Seq<char> {
    if s.contains(c) {
        s.skip(text::split(s, c)[0].len() as int + 1)
    } else {
        s
    }
}

/// The hostname label of a bus endpoint: without `scheme/`, without `:port`, and
/// up to the first `.`.
pub open spec fn host_label(endpoint: Seq<char>) -> Seq<char> {
    text::split(text::split(after_first(endpoint, '/'), ':')[0], '.')[0]
}

/// Does the endpoint name the node `id`?
pub open spec fn names_node(endpoint: Seq<char>, id: Seq<char>) -> bool {
    host_label(endpoint) == id
}

/// True if the ordinal-0 endpoint (e.g. "tcp/entmoot-0.entmoot-headless:7447")
/// names this very node's `id`, i.e. the node would otherwise peer with itself.
pub fn is_peer_zero_self(peer_zero_endpoint: &str, id: &str) -> (r: bool)
    ensures
        r == names_node(peer_zero_endpoint@, id@),
{
    let without_scheme = skip_past(peer_zero_endpoint, '/');
    let hosts = split_on(without_scheme, ':');
    let labels = split_on(hosts[0].as_str(), '.');
    assert(text::texts(hosts@)[0] == hosts@[0]@);
    assert(text::texts(labels@)[0] == labels@[0]@);
    *labels[0].as_str() == *id
}

fn skip_past<'a>(s: &'a str, c: char) -> (r: &'a str)
    ensures
        r@ == after_first(s@, c),
{
    if has_char(s, c) {
        let pieces = split_on(s, c);
        let first = chars_of(pieces[0].as_str());
        assert(text::texts(pieces@)[0] == pieces@[0]@);
        proof {
            lemma_first_piece_short(s@, c);
        }
        let n: usize = first.len();
        let total: usize = s.unicode_len();
        let rest = s.substring_char(n + 1, total);
        assert(rest@ =~= s@.skip(n + 1));
        rest
    } else {
        s
    }
}

proof fn lemma_first_piece_short(s: Seq<char>, c: char)
    requires
        s.contains(c),
    ensures
        text::split(s, c).len() >= 2,
        text::split(s, c)[0].len() < s.len(),
    decreases s.len(),
{
    let d = s.drop_last();
    crate::text::lemma_split_nonempty(d, c);
    if d.contains(c) {
        lemma_first_piece_short(d, c);
    } else {
        let k = choose|k: int| 0 <= k < s.len() && s[k] == c;
        if k < d.len() {
            assert(d[k] == c);
        }
        assert(s.last() == c);
        crate::text::lemma_split_whole(d, c);
    }
}

} // verus!
