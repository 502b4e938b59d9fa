//! What a node makes of its configuration at startup: the settings of the bus, which
//! parts run, and how many connections it takes; and the name in a client certificate.

use crate::config::NodeConfig;
use crate::text::{self, decimal_text, join_with};
use vstd::prelude::*;
use vstd::string::*;

verus! {

/// Texts in debug quotes.
pub open spec fn all_quoted(items: Seq<Seq<char>>) -> Seq<Seq<char>> {
    items.map_values(|s: Seq<char>| text::quoted(s))
}

/// A JSON array of strings.
pub open spec fn json_array(items: Seq<Seq<char>>) -> Seq<char> {
    if items.len() == 0 {
        "[]"@
    } else {
        "["@ + text::join(all_quoted(items), ',') + "]"@
    }
}

pub fn to_json_array(items: &Vec<String>) -> (r: String)
    ensures
        r@ == json_array(text::texts(items@)),
{
    if items.len() == 0 {
        return "[]".to_owned();
    }
    let mut quoted: Vec<String> = Vec::new();
    let mut i: usize = 0;
    while i < items.len()
        invariant
            i <= items@.len(),
            quoted@.len() == i,
            forall|k: int| 0 <= k < i ==> (#[trigger] quoted@[k])@ == text::quoted(items@[k]@),
        decreases items.len() - i,
    {
        quoted.push(text::quote(items[i].as_str()));
        i = i + 1;
    }
    assert(text::texts(quoted@) =~= all_quoted(text::texts(items@)));
    let mut out = "[".to_owned();
    out.append(join_with(&quoted, ',').as_str());
    out.append("]");
    out
}

/// The settings of the bus session, as keys and JSON values. Peers are explicit: the
/// session never joins whatever else is on the network by itself.
pub open spec fn bus_settings(
    listen: Seq<Seq<char>>,
    peers: Seq<Seq<char>>,
    link_mtu: Option<u16>,
) -> Seq<(Seq<char>, Seq<char>)> {
    let base = seq![
        ("mode"@, "\"peer\""@),
        ("scouting/multicast/enabled"@, "false"@),
        ("listen/endpoints"@, json_array(listen)),
        ("connect/endpoints"@, json_array(peers)),
    ];
    match link_mtu {
        Some(mtu) => base.push(("transport/link/tx/batch_size"@, text::decimal(mtu as nat))),
        None => base,
    }
}

/// Keys and values as plain text.
pub open spec fn setting_texts(v: Seq<(&'static str, String)>) -> Seq<(Seq<char>, Seq<char>)> {
    v.map_values(|s: (&'static str, String)| (s.0@, s.1@))
}

pub fn zenoh_settings(cfg: &NodeConfig) -> (r: Vec<(&'static str, String)>)
    ensures
        setting_texts(r@) == bus_settings(
            text::texts(cfg.zenoh_listen@),
            text::texts(cfg.peers@),
            cfg.zenoh_link_mtu,
        ),
{
    let mut out: Vec<(&'static str, String)> = Vec::new();
    out.push(("mode", "\"peer\"".to_owned()));
    out.push(("scouting/multicast/enabled", "false".to_owned()));
    out.push(("listen/endpoints", to_json_array(&cfg.zenoh_listen)));
    out.push(("connect/endpoints", to_json_array(&cfg.peers)));
    if let Some(mtu) = cfg.zenoh_link_mtu {
        out.push(("transport/link/tx/batch_size", decimal_text(mtu as u64)));
    }
    assert(setting_texts(out@) =~= bus_settings(
        text::texts(cfg.zenoh_listen@),
        text::texts(cfg.peers@),
        cfg.zenoh_link_mtu,
    ));
    out
}

/// Which parts of a node run, and how.
#[derive(Debug, Clone, Copy)]
pub struct Startup {
    /// Milliseconds that a full outbound queue may stall; `None` = forever.
    pub slow_grace_ms: Option<u64>,
    /// Seconds between publications of the node stats; `None` = never.
    pub sys_interval_secs: Option<u64>,
    /// Seconds that an offline session is kept; `None` = forever.
    pub session_expiry_secs: Option<u64>,
    /// Whether state is kept in files.
    pub durable: bool,
    /// Whether everyone is let in and nobody is known.
    pub open_to_all: bool,
}

/// A setting in which 0 means "off".
pub open spec fn unless_zero(n: u64) -> Option<u64> {
    if n == 0 {
        None
    } else {
        Some(n)
    }
}

fn nonzero(n: u64) -> (r: Option<u64>)
    ensures
        r == unless_zero(n),
{
    if n == 0 {
        None
    } else {
        Some(n)
    }
}

/// What a configuration says of the parts of a node.
pub fn startup(cfg: &NodeConfig) -> (r: Startup)
    ensures
        r.slow_grace_ms == unless_zero(cfg.slow_consumer_grace_ms),
        r.sys_interval_secs == unless_zero(cfg.sys_interval_secs),
        r.session_expiry_secs == unless_zero(cfg.session_expiry_secs),
        r.durable == (cfg.data_dir is Some),
        r.open_to_all == (cfg.auth.allow_anonymous && cfg.auth.users@.len() == 0),
{
    Startup {
        slow_grace_ms: nonzero(cfg.slow_consumer_grace_ms),
        sys_interval_secs: nonzero(cfg.sys_interval_secs),
        session_expiry_secs: nonzero(cfg.session_expiry_secs),
        durable: cfg.data_dir.is_some(),
        open_to_all: cfg.auth.allow_anonymous && cfg.auth.users.len() == 0,
    }
}

/// The open connections of a node, under a hard limit.
pub struct ConnectionCount {
    count: usize,
    max: usize,
}

impl ConnectionCount {
    #[verifier::type_invariant]
    spec fn within_limit(self) -> bool {
        self.count <= self.max
    }

    pub closed spec fn limit(&self) -> usize {
        self.max
    }

    pub closed spec fn open(&self) -> usize {
        self.count
    }

    pub fn new(max_connections: usize) -> (r: Self)
        ensures
            r.limit() == max_connections,
            r.open() == 0,
    {
        ConnectionCount { count: 0, max: max_connections }
    }

    /// Open connections, never more than the limit.
    pub fn connections(&self) -> (r: usize)
        ensures
            r == self.open(),
            r <= self.limit(),
    {
        proof {
            use_type_invariant(self);
        }
        self.count
    }

    /// Takes one connection more, unless the limit is reached.
    pub fn try_open(&mut self) -> (r: bool)
        ensures
            final(self).limit() == old(self).limit(),
            r == (old(self).open() < old(self).limit()),
            final(self).open() == old(self).open() + (if r {
                1int
            } else {
                0int
            }),
    {
        if self.count >= self.max {
            return false;
        }
        self.count = self.count + 1;
        true
    }

    /// Gives a connection back.
    pub fn close(&mut self)
        ensures
            final(self).limit() == old(self).limit(),
            final(self).open() == (if old(self).open() > 0 {
                old(self).open() - 1
            } else {
                0
            }),
    {
        proof {
            use_type_invariant(&*self);
        }
        if self.count > 0 {
            self.count = self.count - 1;
        }
    }
}

/// The first common name in the subject of a certificate, as `x509_parser` reads it.
pub uninterp spec fn common_name_of(der: Seq<u8>) -> Option<Seq<char>>;

/// Calls `x509_parser::parse_x509_certificate`, `X509Name::iter_common_name` and
/// `AttributeTypeAndValue::as_str`: the name is a function of the certificate alone;
/// there is none where the certificate cannot be parsed, has no common name, or has one
/// that is no text.
#[verifier::external_body]
fn common_name(der: &[u8]) -> (r: Option<String>)
    ensures
        text::opt_string(r) == common_name_of(der@),
{
    let (_, cert) = x509_parser::parse_x509_certificate(der).ok()?;
    let cn = cert.subject().iter_common_name().next()?.as_str().ok()?;
    Some(cn.to_string())
}

/// The identity in a chain of client certificates: the common name of the first.
pub fn peer_cn(chain: &Vec<Vec<u8>>) -> (r: Option<String>)
    ensures
        text::opt_string(r) == (if chain@.len() > 0 {
            common_name_of(chain@[0]@)
        } else {
            None
        }),
{
    if chain.len() == 0 {
        None
    } else {
        common_name(chain[0].as_slice())
    }
}

} // verus!
