//! One client's connection after it was let in: what each packet asks for, and what a
//! publish, a subscription, a retained delivery and a last will come to.
//!
//! The decisions are made here. The work that they ask for (putting on the bus, sending
//! to the client, declaring a subscriber) is done outside, and its outcome is handed
//! back where it matters.

use crate::auth;
use crate::config::{SchemaFailAction, StalenessRule};
use crate::gate::{self, ClientEvent};
use crate::metrics::{self, Metrics};
use crate::packet::{Incoming, LastWill, Message, Outgoing, Publish, QoS, SubscribeCode};
use crate::policy::Policies;
use crate::prefix;
use crate::registry::{self, SessionRegistry, Sessions};
use crate::retained::{self, encode_envelope, RetainedStore};
use crate::schema;
use crate::session::{self, Delivery, KICK_TAKEOVER};
use crate::staleness;
use crate::text::{self, concat2, decimal_text};
use crate::topic::{self, filter_to_keyexpr, meta_keyexpr, retained_keyexpr, topic_to_keyexpr, META_CHUNK, RETAINED_CHUNK};
use std::collections::VecDeque;
use vstd::prelude::*;
use vstd::string::*;

verus! {

/// The settings of the node that a connection goes by.
pub struct NodeInfo {
    pub id: String,
    pub scope: String,
    /// Publishes per second; 0 = unlimited.
    pub max_publish_rate: u32,
}

/// How long a client may stay silent, in milliseconds: one and a half times its
/// keep-alive (MQTT-3.1.2-24). `None` = no limit.
pub open spec fn idle_limit(keep_alive: u16) -> Option<u64> {
    if keep_alive == 0 {
        None
    } else {
        Some((keep_alive * 1500) as u64)
    }
}

pub fn idle_limit_millis(keep_alive: u16) -> (r: Option<u64>)
    ensures
        r == idle_limit(keep_alive),
{
    if keep_alive == 0 {
        None
    } else {
        Some(keep_alive as u64 * 1500)
    }
}

/// A connected client.
pub struct Client {
    pub session: u64,
    pub id: String,
    /// Authenticated username or certificate name; empty = anonymous.
    pub identity: String,
    pub keep_alive: u16,
    pub will: Option<LastWill>,
    /// Inbound QoS 2 packet ids that await their PUBREL.
    pub inflight: Vec<u16>,
}

/// What a packet asks for.
pub enum Reaction {
    /// Handle a publish.
    Publish(Publish),
    /// Send a packet.
    Send(Outgoing),
    /// Handle subscriptions: packet id and filters.
    Subscribe(u16, Vec<(String, QoS)>),
    /// Handle the end of subscriptions: packet id and filters.
    Unsubscribe(u16, Vec<String>),
    /// Nothing.
    Nothing,
    /// End the connection as agreed.
    End,
    /// End the connection as broken, for this reason.
    Fail(String),
}

pub const DUPLICATE_CONNECT: &'static str = "duplicate CONNECT";

pub const UNEXPECTED_PACKET: &'static str = "unexpected packet ";

/// What the connection does with a packet, and the client after it.
pub open spec fn reaction_is(before: Client, after: Client, packet: Incoming, r: Reaction) -> bool {
    &&& after.session == before.session
    &&& after.id == before.id
    &&& after.identity == before.identity
    &&& after.keep_alive == before.keep_alive
    &&& (packet is Disconnect ==> after.will is None)
    &&& (!(packet is Disconnect) ==> after.will == before.will)
    &&& match packet {
        Incoming::PubRel(pkid) => after.inflight@.to_set() == before.inflight@.to_set().remove(
            pkid,
        ),
        _ => after.inflight == before.inflight,
    }
    &&& match packet {
        Incoming::Publish(p) => r == Reaction::Publish(p),
        Incoming::PubRel(pkid) => r == Reaction::Send(Outgoing::PubComp(pkid)),
        Incoming::Subscribe(pkid, filters) => r == Reaction::Subscribe(pkid, filters),
        Incoming::Unsubscribe(pkid, filters) => r == Reaction::Unsubscribe(pkid, filters),
        Incoming::PingReq => r == Reaction::Send(Outgoing::PingResp),
        Incoming::Disconnect => r == Reaction::End,
        Incoming::Ack => r == Reaction::Nothing,
        Incoming::Connect(_) => r matches Reaction::Fail(e) && e@ == DUPLICATE_CONNECT@,
        Incoming::Unexpected(words) => r matches Reaction::Fail(e) && e@ == UNEXPECTED_PACKET@
            + words@,
    }
}

/// How the packets of a connection can come to an end.
pub enum StreamEnd {
    /// The peer has closed the stream, and every packet before was whole.
    PeerClosed,
    /// The peer has closed the stream in the middle of a packet.
    CutOff,
    /// What came is no MQTT packet, for this reason.
    Malformed(String),
    /// Reading has failed, for this reason.
    Broken(String),
    /// The peer was silent for longer than it may.
    Silent,
    /// The connection is kicked, for the reason on record.
    Kicked(Option<&'static str>),
}

/// Why a connection is broken whose stream has ended; `None` where it has ended as agreed.
pub open spec fn end_fault(keep_alive: u16, end: StreamEnd) -> Option<Seq<char>> {
    match end {
        StreamEnd::PeerClosed => None,
        StreamEnd::CutOff => Some("connection closed by peer"@),
        StreamEnd::Malformed(e) => Some("malformed MQTT packet: "@ + e@),
        StreamEnd::Broken(e) => Some("socket read: "@ + e@),
        StreamEnd::Silent => Some(silence_text(keep_alive)),
        StreamEnd::Kicked(Some(reason)) => Some(reason@),
        StreamEnd::Kicked(None) => Some(KICK_TAKEOVER@),
    }
}

/// Why a silent connection is ended.
pub open spec fn silence_text(keep_alive: u16) -> Seq<char> {
    "keep-alive expired ("@ + text::decimal(keep_alive as nat) + "s)"@
}

/// Why a connection is broken whose stream has ended, if it is.
pub fn end_text(keep_alive: u16, end: StreamEnd) -> (r: Option<String>)
    ensures
        text::opt_string(r) == end_fault(keep_alive, end),
{
    match end {
        StreamEnd::PeerClosed => None,
        StreamEnd::CutOff => Some("connection closed by peer".to_owned()),
        StreamEnd::Malformed(e) => Some(concat2("malformed MQTT packet: ", e.as_str())),
        StreamEnd::Broken(e) => Some(concat2("socket read: ", e.as_str())),
        StreamEnd::Silent => {
            let mut reason = "keep-alive expired (".to_owned();
            reason.append(decimal_text(keep_alive as u64).as_str());
            reason.append("s)");
            Some(reason)
        },
        StreamEnd::Kicked(reason) => Some(kick_text(reason).to_owned()),
    }
}

impl StreamEnd {
    /// The end of a stream that the peer has closed, with so many bytes of a packet come
    /// before.
    pub fn closed(pending: usize) -> (r: StreamEnd)
        ensures
            r == (if pending == 0 {
                StreamEnd::PeerClosed
            } else {
                StreamEnd::CutOff
            }),
    {
        if pending == 0 {
            StreamEnd::PeerClosed
        } else {
            StreamEnd::CutOff
        }
    }
}

/// Takes a number out of a list.
fn without(list: &Vec<u16>, n: u16) -> (r: Vec<u16>)
    ensures
        r@.to_set() == list@.to_set().remove(n),
{
    let mut out: Vec<u16> = Vec::new();
    let mut i: usize = 0;
    while i < list.len()
        invariant
            i <= list@.len(),
            forall|k: u16| #[trigger]
                out@.contains(k) <==> (k != n && list@.take(i as int).contains(k)),
        decreases list.len() - i,
    {
        let ghost before = out@;
        let x = list[i];
        if x != n {
            out.push(x);
        }
        proof {
            prefix::lemma_take_next(list@, i as int);
            prefix::lemma_push_contains(before, x);
            assert forall|k: u16| #[trigger] out@.contains(k) <==> (k != n && list@.take(
                i + 1,
            ).contains(k)) by {
                assert(list@.take(i + 1).contains(k) == (list@.take(i as int).contains(k) || k
                    == x));
                assert(before.contains(k) <==> (k != n && list@.take(i as int).contains(k)));
            }
        }
        i = i + 1;
    }
    assert(list@.take(i as int) =~= list@);
    assert(out@.to_set() =~= list@.to_set().remove(n));
    out
}

impl Client {
    /// What a packet asks for.
    pub fn react(&mut self, packet: Incoming) -> (r: Reaction)
        ensures
            reaction_is(*old(self), *final(self), packet, r),
    {
        match packet {
            Incoming::Publish(p) => Reaction::Publish(p),
            Incoming::PubRel(pkid) => {
                let rest = without(&self.inflight, pkid);
                self.inflight = rest;
                Reaction::Send(Outgoing::PubComp(pkid))
            },
            Incoming::Subscribe(pkid, filters) => Reaction::Subscribe(pkid, filters),
            Incoming::Unsubscribe(pkid, filters) => Reaction::Unsubscribe(pkid, filters),
            Incoming::PingReq => Reaction::Send(Outgoing::PingResp),
            Incoming::Disconnect => {
                // Clean shutdown: the will is discarded (MQTT-3.14.4-3).
                self.will = None;
                Reaction::End
            },
            // Acknowledgements of what was sent; there is no redelivery to track.
            Incoming::Ack => Reaction::Nothing,
            Incoming::Connect(_) => Reaction::Fail(DUPLICATE_CONNECT.to_owned()),
            Incoming::Unexpected(words) => Reaction::Fail(
                concat2(UNEXPECTED_PACKET, words.as_str()),
            ),
        }
    }

    /// What the end of the stream comes to: a peer that closes it after whole packets has
    /// ended the connection as agreed.
    pub fn stream_ended(&self, end: StreamEnd) -> (r: Reaction)
        ensures
            match end_fault(self.keep_alive, end) {
                Some(reason) => r matches Reaction::Fail(e) && e@ == reason,
                None => r == Reaction::End,
            },
    {
        match end_text(self.keep_alive, end) {
            Some(reason) => Reaction::Fail(reason),
            None => Reaction::End,
        }
    }
}

/// What a publish does to the retained message of its topic.
pub enum RetainedWrite {
    /// Nothing: the message is not to be retained.
    Leave,
    /// The message of a key is cleared.
    Clear(String),
    /// A value is stored under a key.
    Store(String, Vec<u8>),
}

/// What goes on the bus for a publish.
pub struct Relay {
    pub key: String,
    pub payload: Vec<u8>,
    pub retained: RetainedWrite,
}

/// What is left to do for a publish whose message was to be put on the bus: it counts as
/// taken in and its retained message is to be written, or the connection is ended, for
/// this reason.
pub fn relayed(
    counters: &mut Metrics,
    key: &str,
    retained: RetainedWrite,
    put: Result<(), String>,
) -> (r: Result<RetainedWrite, String>)
    ensures
        match put {
            Ok(()) => r == Ok::<RetainedWrite, String>(retained) && *final(counters) == (Metrics {
                messages_in_total: metrics::bumped(old(counters).messages_in_total),
                ..*old(counters)
            }),
            Err(e) => r matches Err(reason) && reason@ == "zenoh put on "@ + key@ + ": "@ + e@
                && *final(counters) == *old(counters),
        },
{
    match put {
        Ok(()) => {
            Metrics::bump(&mut counters.messages_in_total);
            Ok(retained)
        },
        Err(e) => {
            let mut reason = "zenoh put on ".to_owned();
            reason.append(key);
            reason.append(": ");
            reason.append(e.as_str());
            Err(reason)
        },
    }
}

/// What a publish comes to.
pub enum PublishOutcome {
    /// The connection is ended, for this reason.
    Fail(String),
    /// The publish is acknowledged, whether or not it goes on the bus.
    Accept(Option<ClientEvent>, Option<Relay>, Option<Outgoing>),
}

/// Why a publish ends the connection: its rate, its topic, or its payload where the
/// schema rule says so. `verdict` is what data validation says of an allowed publish.
pub open spec fn publish_fault(
    acl: (Seq<crate::config::AclRule>, bool),
    node: NodeInfo,
    identity: Seq<char>,
    m: Message,
    in_rate: bool,
    verdict: schema::Verdict,
) -> Option<Seq<char>> {
    if !in_rate {
        Some(
            "publish rate limit exceeded ("@ + text::decimal(node.max_publish_rate as nat)
                + "/s), disconnecting"@,
        )
    } else {
        match topic::topic_key(m.topic, node.scope@) {
            Err(fault) => Some(
                "invalid publish topic "@ + text::quoted(m.topic) + ": "@ + topic::fault_text(
                    fault,
                ),
            ),
            Ok(_) => if auth::publish_allowed(acl, identity, m.topic) && verdict
                == schema::Verdict::Fail(SchemaFailAction::Disconnect) {
                Some(
                    "publish on "@ + text::quoted(m.topic)
                        + " failed schema validation, disconnecting"@,
                )
            } else {
                None
            },
        }
    }
}

/// The event of a publish that the grants do not allow.
pub open spec fn publish_denied_text(topic: Seq<char>) -> Seq<char> {
    "publish_denied topic="@ + text::quoted(topic)
}

/// What goes on the bus for an accepted publish: nothing where the grants or the schema
/// object; else the message under the key of its topic and, with the retain flag, the
/// retained message (an empty one clears it, MQTT-3.3.1-10/11).
pub open spec fn relay_is(
    relay: Option<Relay>,
    acl: (Seq<crate::config::AclRule>, bool),
    scope: Seq<char>,
    identity: Seq<char>,
    m: Message,
    verdict: schema::Verdict,
    now: u64,
) -> bool {
    if !auth::publish_allowed(acl, identity, m.topic) || verdict != schema::Verdict::Pass {
        relay is None
    } else {
        let key = topic::internal_key(RETAINED_CHUNK@, m.topic, scope);
        relay matches Some(relay) && topic::topic_key(m.topic, scope) == Ok::<
            Seq<char>,
            topic::TopicFault,
        >(relay.key@) && relay.payload@ == m.payload && match relay.retained {
            RetainedWrite::Leave => !m.retain,
            RetainedWrite::Clear(k) => m.retain && m.payload.len() == 0 && k@ == key,
            RetainedWrite::Store(k, v) => m.retain && m.payload.len() > 0 && k@ == key && v@
                == retained::envelope(m.payload, now),
        }
    }
}

/// The acknowledgement of a publish by its quality of service.
pub open spec fn publish_ack(qos: QoS, pkid: u16) -> Option<Outgoing> {
    match qos {
        QoS::AtMostOnce => None,
        QoS::AtLeastOnce => Some(Outgoing::PubAck(pkid)),
        QoS::ExactlyOnce => Some(Outgoing::PubRec(pkid)),
    }
}

/// The counters after a publish.
pub open spec fn publish_metrics(
    c: Metrics,
    acl: (Seq<crate::config::AclRule>, bool),
    scope: Seq<char>,
    identity: Seq<char>,
    m: Message,
    in_rate: bool,
    verdict: schema::Verdict,
) -> Metrics {
    if !in_rate {
        Metrics {
            rate_limit_disconnects_total: metrics::bumped(c.rate_limit_disconnects_total),
            ..c
        }
    } else if topic::topic_key(m.topic, scope) is Err {
        c
    } else if !auth::publish_allowed(acl, identity, m.topic) {
        Metrics { publish_denied_total: metrics::bumped(c.publish_denied_total), ..c }
    } else if verdict != schema::Verdict::Pass {
        Metrics { schema_denied_total: metrics::bumped(c.schema_denied_total), ..c }
    } else {
        c
    }
}

/// What a publish comes to, and the client after it.
pub open spec fn publish_is(
    before: Client,
    after: Client,
    acl: (Seq<crate::config::AclRule>, bool),
    node: NodeInfo,
    m: Message,
    in_rate: bool,
    verdict: schema::Verdict,
    now: u64,
    r: PublishOutcome,
) -> bool {
    let fault = publish_fault(acl, node, before.identity@, m, in_rate, verdict);
    &&& after.session == before.session
    &&& after.id == before.id
    &&& after.identity == before.identity
    &&& after.keep_alive == before.keep_alive
    &&& after.will == before.will
    &&& match r {
        PublishOutcome::Fail(e) => fault == Some(e@) && after.inflight == before.inflight,
        PublishOutcome::Accept(event, relay, ack) => {
            &&& fault is None
            &&& gate::event_text(event) == (if auth::publish_allowed(
                acl,
                before.identity@,
                m.topic,
            ) {
                None
            } else {
                Some((before.id@, publish_denied_text(m.topic)))
            })
            &&& relay_is(relay, acl, node.scope@, before.identity@, m, verdict, now)
            &&& ack == publish_ack(m.qos, m.pkid)
            &&& after.inflight@.to_set() == (if m.qos == QoS::ExactlyOnce {
                before.inflight@.to_set().insert(m.pkid)
            } else {
                before.inflight@.to_set()
            })
        },
    }
}

/// Adds a number to a list that holds each once.
fn with(list: &mut Vec<u16>, n: u16)
    ensures
        final(list)@.to_set() == old(list)@.to_set().insert(n),
{
    let mut i: usize = 0;
    while i < list.len()
        invariant
            i <= list@.len(),
            list@ == old(list)@,
        decreases list.len() - i,
    {
        if list[i] == n {
            assert(list@.contains(n));
            assert(list@.to_set() =~= list@.to_set().insert(n));
            return;
        }
        i = i + 1;
    }
    list.push(n);
    assert(list@.to_set() =~= old(list)@.to_set().insert(n)) by {
        prefix::lemma_push_contains(old(list)@, n);
    }
}

/// Two texts, one in debug quotes.
fn with_quoted(before: &str, name: &str, after: &str) -> (r: String)
    ensures
        r@ == before@ + text::quoted(name@) + after@,
{
    let mut out = before.to_owned();
    out.append(text::quote(name).as_str());
    out.append(after);
    out
}

impl Client {
    /// Handles a publish. `in_rate` says whether the client keeps to its publish rate;
    /// `now` is the time in milliseconds since 1970.
    pub fn publish(
        &mut self,
        policies: &Policies,
        counters: &mut Metrics,
        node: &NodeInfo,
        p: Publish,
        in_rate: bool,
        now: u64,
    ) -> (r: PublishOutcome)
        ensures
            publish_is(
                *old(self),
                *final(self),
                policies@.acl,
                *node,
                p@,
                in_rate,
                schema::policy_verdict(policies@.schema, p@.topic, p@.payload),
                now,
                r,
            ),
            *final(counters) == publish_metrics(
                *old(counters),
                policies@.acl,
                node.scope@,
                old(self).identity@,
                p@,
                in_rate,
                schema::policy_verdict(policies@.schema, p@.topic, p@.payload),
            ),
    {
        // Data validation is spared for what is refused before it.
        let verdict = if in_rate && policies.acl.may_publish(
            self.identity.as_str(),
            p.topic.as_str(),
        ) {
            policies.schema.check(p.topic.as_str(), p.payload.as_slice())
        } else {
            schema::Verdict::Pass
        };
        self.judge_publish(policies, counters, node, p, in_rate, verdict, now)
    }

    /// Handles a publish, given what data validation says of it.
    pub fn judge_publish(
        &mut self,
        policies: &Policies,
        counters: &mut Metrics,
        node: &NodeInfo,
        p: Publish,
        in_rate: bool,
        verdict: schema::Verdict,
        now: u64,
    ) -> (r: PublishOutcome)
        ensures
            publish_is(
                *old(self),
                *final(self),
                policies@.acl,
                *node,
                p@,
                in_rate,
                verdict,
                now,
                r,
            ),
            *final(counters) == publish_metrics(
                *old(counters),
                policies@.acl,
                node.scope@,
                old(self).identity@,
                p@,
                in_rate,
                verdict,
            ),
    {
        if !in_rate {
            Metrics::bump(&mut counters.rate_limit_disconnects_total);
            let mut reason = "publish rate limit exceeded (".to_owned();
            reason.append(decimal_text(node.max_publish_rate as u64).as_str());
            reason.append("/s), disconnecting");
            return PublishOutcome::Fail(reason);
        }
        let key = match topic_to_keyexpr(p.topic.as_str(), node.scope.as_str()) {
            Ok(key) => key,
            Err(e) => {
                let mut reason = with_quoted("invalid publish topic ", p.topic.as_str(), ": ");
                reason.append(e.message().as_str());
                return PublishOutcome::Fail(reason);
            },
        };
        let mut event: Option<ClientEvent> = None;
        let mut relay: Option<Relay> = None;
        let (qos, pkid) = (p.qos, p.pkid);
        if !policies.acl.may_publish(self.identity.as_str(), p.topic.as_str()) {
            Metrics::bump(&mut counters.publish_denied_total);
            let text = concat2("publish_denied topic=", text::quote(p.topic.as_str()).as_str());
            event = Some(ClientEvent { client_id: self.id.clone(), text });
        } else {
            match verdict {
                schema::Verdict::Fail(action) => {
                    Metrics::bump(&mut counters.schema_denied_total);
                    if action == SchemaFailAction::Disconnect {
                        let reason = with_quoted(
                            "publish on ",
                            p.topic.as_str(),
                            " failed schema validation, disconnecting",
                        );
                        return PublishOutcome::Fail(reason);
                    }
                },
                schema::Verdict::Pass => {
                    let retained = retained_write(&p, node.scope.as_str(), now);
                    relay = Some(Relay { key, payload: p.payload, retained });
                },
            }
        }
        // Acknowledged even when it was dropped: there is no negative acknowledgement,
        // and stalling would only make the device retry forever.
        let ack = match qos {
            QoS::AtMostOnce => None,
            QoS::AtLeastOnce => Some(Outgoing::PubAck(pkid)),
            QoS::ExactlyOnce => {
                with(&mut self.inflight, pkid);
                Some(Outgoing::PubRec(pkid))
            },
        };
        PublishOutcome::Accept(event, relay, ack)
    }
}

/// What an allowed publish does to the retained message of its topic.
fn retained_write(p: &Publish, scope: &str, now: u64) -> (r: RetainedWrite)
    ensures
        match r {
            RetainedWrite::Leave => !p@.retain,
            RetainedWrite::Clear(k) => p@.retain && p@.payload.len() == 0 && k@
                == topic::internal_key(RETAINED_CHUNK@, p@.topic, scope@),
            RetainedWrite::Store(k, v) => p@.retain && p@.payload.len() > 0 && k@
                == topic::internal_key(RETAINED_CHUNK@, p@.topic, scope@) && v@
                == retained::envelope(p@.payload, now),
        },
{
    if !p.retain {
        return RetainedWrite::Leave;
    }
    let key = retained_keyexpr(p.topic.as_str(), scope);
    if p.payload.len() == 0 {
        RetainedWrite::Clear(key)
    } else {
        RetainedWrite::Store(key, encode_envelope(p.payload.as_slice(), now))
    }
}

/// The quality of service granted: at most 1, as there is no exactly-once tracking
/// across the mesh.
pub open spec fn granted(asked: QoS) -> QoS {
    if asked == QoS::AtMostOnce {
        QoS::AtMostOnce
    } else {
        QoS::AtLeastOnce
    }
}

/// A quality of service by name.
pub open spec fn qos_name(qos: QoS) -> Seq<char> {
    match qos {
        QoS::AtMostOnce => "AtMostOnce"@,
        QoS::AtLeastOnce => "AtLeastOnce"@,
        QoS::ExactlyOnce => "ExactlyOnce"@,
    }
}

/// What a request for a subscription comes to.
pub enum SubscribeDecision {
    /// It is refused.
    Refuse(Option<ClientEvent>),
    /// A subscriber is to be declared on a key, for a quality of service.
    Activate(String, QoS),
}

/// Whether a request for a subscription is decided as the rules say.
pub open spec fn subscribe_is(
    acl: (Seq<crate::config::AclRule>, bool),
    scope: Seq<char>,
    client: Client,
    filter: Seq<char>,
    asked: QoS,
    r: SubscribeDecision,
) -> bool {
    match topic::filter_key(filter, scope) {
        Err(_) => r matches SubscribeDecision::Refuse(event) && event is None,
        Ok(key) => if auth::subscribe_allowed(acl, client.identity@, filter) {
            r matches SubscribeDecision::Activate(k, qos) && k@ == key && qos == granted(asked)
        } else {
            r matches SubscribeDecision::Refuse(event) && gate::event_text(event) == Some(
                (client.id@, "subscribe_denied filter="@ + text::quoted(filter)),
            )
        },
    }
}

impl Client {
    /// Decides a request for a subscription.
    pub fn subscribe(
        &self,
        policies: &Policies,
        counters: &mut Metrics,
        node: &NodeInfo,
        filter: &str,
        asked: QoS,
    ) -> (r: SubscribeDecision)
        ensures
            subscribe_is(policies@.acl, node.scope@, *self, filter@, asked, r),
            *final(counters) == (if r is Refuse {
                Metrics {
                    subscribe_denied_total: metrics::bumped(old(counters).subscribe_denied_total),
                    ..*old(counters)
                }
            } else {
                *old(counters)
            }),
    {
        let key = match filter_to_keyexpr(filter, node.scope.as_str()) {
            Ok(key) => key,
            Err(_) => {
                Metrics::bump(&mut counters.subscribe_denied_total);
                return SubscribeDecision::Refuse(None);
            },
        };
        if !policies.acl.may_subscribe(self.identity.as_str(), filter) {
            Metrics::bump(&mut counters.subscribe_denied_total);
            let text = concat2("subscribe_denied filter=", text::quote(filter).as_str());
            return SubscribeDecision::Refuse(
                Some(ClientEvent { client_id: self.id.clone(), text }),
            );
        }
        let qos = match asked {
            QoS::AtMostOnce => QoS::AtMostOnce,
            QoS::AtLeastOnce => QoS::AtLeastOnce,
            QoS::ExactlyOnce => QoS::AtLeastOnce,
        };
        SubscribeDecision::Activate(key, qos)
    }

    /// The answer to a request for a subscription whose subscriber was to be declared,
    /// and the event of one that was.
    pub fn subscribed(&self, counters: &mut Metrics, filter: &str, qos: QoS, declared: bool) -> (r: (
        SubscribeCode,
        Option<ClientEvent>,
    ))
        ensures
            r.0 == (if declared {
                SubscribeCode::Success(qos)
            } else {
                SubscribeCode::Failure
            }),
            gate::event_text(r.1) == (if declared {
                Some((self.id@, "subscribe filter="@ + filter@ + " qos="@ + qos_name(qos)))
            } else {
                None
            }),
            *final(counters) == (if declared {
                Metrics {
                    subscribes_total: metrics::bumped(old(counters).subscribes_total),
                    ..*old(counters)
                }
            } else {
                *old(counters)
            }),
    {
        if !declared {
            return (SubscribeCode::Failure, None);
        }
        Metrics::bump(&mut counters.subscribes_total);
        let mut text = "subscribe filter=".to_owned();
        text.append(filter);
        text.append(" qos=");
        text.append(
            match qos {
                QoS::AtMostOnce => "AtMostOnce",
                QoS::AtLeastOnce => "AtLeastOnce",
                QoS::ExactlyOnce => "ExactlyOnce",
            },
        );
        (SubscribeCode::Success(qos), Some(ClientEvent { client_id: self.id.clone(), text }))
    }

    /// Ends a subscription: the task to be ended, and the event.
    pub fn unsubscribe(&self, registry: &mut SessionRegistry, filter: &str) -> (r: (
        Option<u64>,
        ClientEvent,
    ))
        requires
            old(registry).wf(),
        ensures
            final(registry).wf(),
            final(registry).rules() == old(registry).rules(),
            ({
                let before = old(registry)@;
                let known = before.all.dom().contains(self.session);
                let s = before.all[self.session];
                &&& final(registry)@ == (if known {
                    registry::updated(
                        before,
                        self.session,
                        session::Session { subs: s.subs.remove(filter@), ..s },
                    )
                } else {
                    before
                })
                &&& r.0 == (if known && s.subs.dom().contains(filter@) {
                    Some(s.subs[filter@].task)
                } else {
                    None
                })
            }),
            r.1.client_id@ == self.id@,
            r.1.text@ == "unsubscribe filter="@ + filter@,
    {
        let task = registry.remove_sub(self.session, filter);
        let text = concat2("unsubscribe filter=", filter);
        (task, ClientEvent { client_id: self.id.clone(), text })
    }

    /// The event of a client that was let in.
    pub fn connect_event(&self, peer: &str, clean: bool) -> (r: ClientEvent)
        ensures
            r.client_id@ == self.id@,
            r.text@ == "connect addr="@ + peer@ + " clean="@ + (if clean {
                "true"@
            } else {
                "false"@
            }),
    {
        let mut text = "connect addr=".to_owned();
        text.append(peer);
        text.append(" clean=");
        text.append(if clean {
            "true"
        } else {
            "false"
        });
        ClientEvent { client_id: self.id.clone(), text }
    }

    /// The event of a connection that has ended.
    pub fn disconnect_event(&self, as_agreed: bool) -> (r: ClientEvent)
        ensures
            r.client_id@ == self.id@,
            r.text@ == "disconnect reason="@ + (if as_agreed {
                "clean"@
            } else {
                "abnormal"@
            }),
    {
        let reason = if as_agreed {
            "clean"
        } else {
            "abnormal"
        };
        ClientEvent {
            client_id: self.id.clone(),
            text: concat2("disconnect reason=", reason),
        }
    }
}

/// Why a kicked connection is ended: the recorded reason, or a takeover.
pub fn kick_text(reason: Option<&'static str>) -> (r: &'static str)
    ensures
        r@ == (match reason {
            Some(text) => text@,
            None => KICK_TAKEOVER@,
        }),
{
    match reason {
        Some(text) => text,
        None => KICK_TAKEOVER,
    }
}

/// The counters after a delivery to a session.
pub open spec fn delivery_metrics(m: Metrics, d: Delivery) -> Metrics {
    match d {
        Delivery::Sent => Metrics { messages_out_total: metrics::bumped(m.messages_out_total), ..m },
        Delivery::Queued => Metrics {
            messages_queued_total: metrics::bumped(m.messages_queued_total),
            ..m
        },
        Delivery::Dropped => m,
    }
}

/// Counts a delivery to a session.
pub fn count_delivery(counters: &mut Metrics, d: Delivery)
    ensures
        *final(counters) == delivery_metrics(*old(counters), d),
{
    match d {
        Delivery::Sent => Metrics::bump(&mut counters.messages_out_total),
        Delivery::Queued => Metrics::bump(&mut counters.messages_queued_total),
        Delivery::Dropped => {},
    }
}

/// A message to a client: a packet id (above QoS 0) and the retain flag as given.
pub open spec fn message_to_client(
    topic: Seq<char>,
    payload: Seq<u8>,
    qos: QoS,
    retain: bool,
    pkid: u16,
) -> Message {
    Message {
        dup: false,
        qos,
        retain,
        topic,
        pkid: if qos == QoS::AtMostOnce {
            0
        } else {
            pkid
        },
        payload,
    }
}

/// Makes a message to a client.
pub fn to_client(topic: String, payload: Vec<u8>, qos: QoS, retain: bool, pkid: u16) -> (r:
    Publish)
    ensures
        r@ == message_to_client(topic@, payload@, qos, retain, pkid),
{
    let pkid: u16 = if qos == QoS::AtMostOnce {
        0
    } else {
        pkid
    };
    Publish { dup: false, qos, retain, topic, pkid, payload }
}

/// The age of a value: none where the clock is behind the time it was written.
pub open spec fn age_of(written_at: u64, now: u64) -> nat {
    if now >= written_at {
        (now - written_at) as nat
    } else {
        0
    }
}

/// The companion of a stale retained message.
pub open spec fn stale_text(age_millis: nat, bound_secs: u64) -> Seq<char> {
    "stale=true age_secs="@ + text::decimal(age_millis / 1000) + " bound_secs="@ + text::decimal(
        bound_secs as nat,
    )
}

/// Whether the delivery of a retained message has the companion that it should have: one
/// where the message is older than its staleness bound, else none.
pub open spec fn notice_is(
    notice: Option<(String, String)>,
    staleness: (Seq<StalenessRule>, u64),
    scope: Seq<char>,
    topic: Seq<char>,
    written_at: u64,
    now: u64,
) -> bool {
    let bound = staleness::bound(staleness.0, staleness.1, topic);
    let age = age_of(written_at, now);
    match notice {
        Some((key, text)) => staleness::is_stale(bound, age) && key@ == topic::internal_key(
            META_CHUNK@,
            topic,
            scope,
        ) && text@ == stale_text(age, bound),
        None => !staleness::is_stale(bound, age),
    }
}

/// The companion message on `$meta/<topic>` for the delivery of a retained message that
/// is older than its staleness bound: bus key and text. Both times are milliseconds
/// since 1970.
pub fn stale_notice(policies: &Policies, scope: &str, topic: &str, written_at: u64, now: u64) -> (r:
    Option<(String, String)>)
    ensures
        notice_is(r, policies@.staleness, scope@, topic@, written_at, now),
{
    let bound = policies.staleness.bound_secs(topic);
    if bound == 0 {
        return None;
    }
    let age: u64 = if now >= written_at {
        now - written_at
    } else {
        0
    };
    if age as u128 <= bound as u128 * 1000 {
        return None;
    }
    let mut text = "stale=true age_secs=".to_owned();
    text.append(decimal_text(age / 1000).as_str());
    text.append(" bound_secs=");
    text.append(decimal_text(bound).as_str());
    Some((meta_keyexpr(topic, scope), text))
}

/// A retained message for a client, and the companion message that goes on the bus with
/// it: bus key and text.
pub struct RetainedDelivery {
    pub message: Publish,
    pub notice: Option<(String, String)>,
}

/// Whether retained messages that were found are handed to a client as they should be:
/// each with the retain flag set (MQTT-3.3.1-8) and a packet id of its own (above QoS 0),
/// and flagged where it is stale.
pub open spec fn deliveries_are(
    list: Seq<RetainedDelivery>,
    found: Seq<(Seq<char>, Seq<u8>, u64)>,
    pkid: u16,
    qos: QoS,
    staleness: (Seq<StalenessRule>, u64),
    scope: Seq<char>,
    now: u64,
) -> bool {
    &&& list.len() == found.len()
    &&& forall|i: int|
        0 <= i < list.len() ==> (#[trigger] list[i]).message@ == message_to_client(
            found[i].0,
            found[i].1,
            qos,
            true,
            session::nth_packet_id(pkid, i as nat),
        ) && notice_is(list[i].notice, staleness, scope, found[i].0, found[i].2, now)
}

/// The sessions after messages were handed to the client of one of them.
pub open spec fn after_sends(reg: Sessions, session: u64, qos: QoS, count: nat) -> Sessions {
    if qos == QoS::AtMostOnce {
        reg
    } else {
        let s = reg.all[session];
        registry::updated(
            reg,
            session,
            session::Session { pkid: session::counter_after(s.pkid, count), ..s },
        )
    }
}

impl Client {
    /// The retained messages for a new subscription of the client: all that match the
    /// filter. `now` is the time in milliseconds since 1970. There are none for a session
    /// that is no longer known.
    pub fn deliver_retained(
        &self,
        registry: &mut SessionRegistry,
        store: &mut RetainedStore,
        policies: &Policies,
        scope: &str,
        filter: &str,
        qos: QoS,
        now: u64,
    ) -> (r: Vec<RetainedDelivery>)
        requires
            old(registry).wf(),
            old(store).wf(),
        ensures
            final(registry).wf(),
            final(registry).rules() == old(registry).rules(),
            final(store).wf(),
            final(store)@ == old(store)@,
            final(store).dirty() == old(store).dirty(),
            retained::shares_scans(*old(store), *final(store), filter@),
            if old(registry)@.all.dom().contains(self.session) {
                &&& final(registry)@ == after_sends(
                    old(registry)@,
                    self.session,
                    qos,
                    r@.len(),
                )
                &&& exists|found: Seq<(Seq<char>, Seq<u8>, u64)>| #[trigger]
                    retained::is_matching(old(store)@, filter@, found) && deliveries_are(
                        r@,
                        found,
                        old(registry)@.all[self.session].pkid,
                        qos,
                        policies@.staleness,
                        scope@,
                        now,
                    )
            } else {
                r@.len() == 0 && final(registry)@ == old(registry)@
            },
    {
        let found = store.matching_cached(filter);
        let mut out: Vec<RetainedDelivery> = Vec::new();
        if !registry.knows(self.session) {
            return out;
        }
        let ghost before = registry@;
        let ghost list = retained::found_items(found@);
        let ghost pkid = before.all[self.session].pkid;
        assert(after_sends(before, self.session, qos, 0).all =~= before.all);
        let mut i: usize = 0;
        while i < found.len()
            invariant
                i <= found@.len(),
                list == retained::found_items(found@),
                registry.wf(),
                registry.rules() == old(registry).rules(),
                before.all.dom().contains(self.session),
                pkid == before.all[self.session].pkid,
                registry@ == after_sends(before, self.session, qos, i as nat),
                deliveries_are(
                    out@,
                    list.take(i as int),
                    pkid,
                    qos,
                    policies@.staleness,
                    scope@,
                    now,
                ),
            decreases found.len() - i,
        {
            let (topic, payload, written_at) = &found[i];
            let ghost reg = registry@;
            let id: u16 = if qos == QoS::AtMostOnce {
                0
            } else {
                match registry.next_pkid(self.session) {
                    Some(id) => id,
                    None => 0,
                }
            };
            let message = to_client(topic.clone(), payload.clone(), qos, true, id);
            let notice = stale_notice(policies, scope, topic.as_str(), *written_at, now);
            let ghost done = out@;
            out.push(RetainedDelivery { message, notice });
            proof {
                assert(registry@.all =~= after_sends(
                    before,
                    self.session,
                    qos,
                    (i + 1) as nat,
                ).all);
                assert(list[i as int] == (topic@, payload@, *written_at));
                assert forall|k: int| 0 <= k < out@.len() implies (#[trigger] out@[k]).message@
                    == message_to_client(
                    list.take(i + 1)[k].0,
                    list.take(i + 1)[k].1,
                    qos,
                    true,
                    session::nth_packet_id(pkid, k as nat),
                ) && notice_is(
                    out@[k].notice,
                    policies@.staleness,
                    scope@,
                    list.take(i + 1)[k].0,
                    list.take(i + 1)[k].2,
                    now,
                ) by {
                    if k < i {
                        assert(out@[k] == done[k]);
                        assert(list.take(i as int)[k] == list.take(i + 1)[k]);
                    }
                }
            }
            i = i + 1;
        }
        assert(list.take(i as int) =~= list);
        out
    }
}

/// Whether messages from a queue are handed to a client in their order, at QoS 1, each
/// with a packet id of its own.
pub open spec fn backlog_is(
    list: Seq<Publish>,
    backlog: Seq<(Seq<char>, Seq<u8>)>,
    pkid: u16,
) -> bool {
    &&& list.len() == backlog.len()
    &&& forall|i: int|
        0 <= i < list.len() ==> (#[trigger] list[i])@ == message_to_client(
            backlog[i].0,
            backlog[i].1,
            QoS::AtLeastOnce,
            false,
            session::nth_packet_id(pkid, i as nat),
        )
}

impl Client {
    /// The messages for a client that takes up its session: what was queued for it, all
    /// of it QoS 1, as nothing else is queued. There are none for a session that is no
    /// longer known.
    pub fn deliver_backlog(
        &self,
        registry: &mut SessionRegistry,
        backlog: &VecDeque<(String, Vec<u8>)>,
    ) -> (r: Vec<Publish>)
        requires
            old(registry).wf(),
        ensures
            final(registry).wf(),
            final(registry).rules() == old(registry).rules(),
            if old(registry)@.all.dom().contains(self.session) {
                &&& final(registry)@ == after_sends(
                    old(registry)@,
                    self.session,
                    QoS::AtLeastOnce,
                    r@.len(),
                )
                &&& backlog_is(
                    r@,
                    session::messages(backlog@),
                    old(registry)@.all[self.session].pkid,
                )
            } else {
                r@.len() == 0 && final(registry)@ == old(registry)@
            },
    {
        let mut out: Vec<Publish> = Vec::new();
        if !registry.knows(self.session) {
            return out;
        }
        let ghost before = registry@;
        let ghost list = session::messages(backlog@);
        let ghost pkid = before.all[self.session].pkid;
        assert(after_sends(before, self.session, QoS::AtLeastOnce, 0).all =~= before.all);
        let mut i: usize = 0;
        while i < backlog.len()
            invariant
                i <= backlog@.len(),
                list == session::messages(backlog@),
                registry.wf(),
                registry.rules() == old(registry).rules(),
                before.all.dom().contains(self.session),
                pkid == before.all[self.session].pkid,
                registry@ == after_sends(
                    before,
                    self.session,
                    QoS::AtLeastOnce,
                    i as nat,
                ),
                backlog_is(out@, list.take(i as int), pkid),
            decreases backlog.len() - i,
        {
            let (topic, payload) = &backlog[i];
            let id: u16 = match registry.next_pkid(self.session) {
                Some(id) => id,
                None => 0,
            };
            let ghost done = out@;
            out.push(to_client(topic.clone(), payload.clone(), QoS::AtLeastOnce, false, id));
            proof {
                assert(registry@.all =~= after_sends(
                    before,
                    self.session,
                    QoS::AtLeastOnce,
                    (i + 1) as nat,
                ).all);
                assert(list[i as int] == (topic@, payload@));
                assert forall|k: int| 0 <= k < out@.len() implies (#[trigger] out@[k])@
                    == message_to_client(
                    list.take(i + 1)[k].0,
                    list.take(i + 1)[k].1,
                    QoS::AtLeastOnce,
                    false,
                    session::nth_packet_id(pkid, k as nat),
                ) by {
                    if k < i {
                        assert(out@[k] == done[k]);
                        assert(list.take(i as int)[k] == list.take(i + 1)[k]);
                    }
                }
            }
            i = i + 1;
        }
        assert(list.take(i as int) =~= list);
        out
    }
}

/// Counts a retained message that was sent to a client, and whether it was flagged.
pub fn count_retained(counters: &mut Metrics, flagged: bool)
    ensures
        *final(counters) == (Metrics {
            messages_out_total: metrics::bumped(old(counters).messages_out_total),
            stale_retained_total: if flagged {
                metrics::bumped(old(counters).stale_retained_total)
            } else {
                old(counters).stale_retained_total
            },
            ..*old(counters)
        }),
{
    Metrics::bump(&mut counters.messages_out_total);
    if flagged {
        Metrics::bump(&mut counters.stale_retained_total);
    }
}

/// What the loss of a client comes to.
pub enum WillOutcome {
    /// There is no will.
    Nothing,
    /// The grants do not allow it.
    Denied(ClientEvent),
    /// Its topic cannot be published on.
    Invalid,
    /// It goes on the bus, and may be retained: an empty will never is.
    Fire(Relay),
}

/// Whether a will is fired as the rules say.
pub open spec fn will_is_fired(
    acl: (Seq<crate::config::AclRule>, bool),
    scope: Seq<char>,
    client: Client,
    now: u64,
    r: WillOutcome,
) -> bool {
    match client.will {
        None => r is Nothing,
        Some(will) => if !auth::publish_allowed(acl, client.identity@, will.topic@) {
            r matches WillOutcome::Denied(e) && e.client_id@ == client.id@ && e.text@
                == "will_denied topic="@ + text::quoted(will.topic@)
        } else {
            match topic::topic_key(will.topic@, scope) {
                Err(_) => r is Invalid,
                Ok(key) => r matches WillOutcome::Fire(relay) && relay.key@ == key
                    && relay.payload@ == will.message@ && match relay.retained {
                    RetainedWrite::Leave => !will.retain || will.message@.len() == 0,
                    RetainedWrite::Clear(_) => false,
                    RetainedWrite::Store(k, v) => will.retain && will.message@.len() > 0 && k@
                        == topic::internal_key(RETAINED_CHUNK@, will.topic@, scope) && v@
                        == retained::envelope(will.message@, now),
                },
            }
        },
    }
}

impl Client {
    /// Fires the last will of a client that was lost, once. `now` is the time in
    /// milliseconds since 1970.
    pub fn fire_will(&mut self, policies: &Policies, scope: &str, now: u64) -> (r: WillOutcome)
        ensures
            will_is_fired(policies@.acl, scope@, *old(self), now, r),
            *final(self) == (Client { will: None, ..*old(self) }),
    {
        let will = match self.will.take() {
            Some(will) => will,
            None => {
                return WillOutcome::Nothing;
            },
        };
        if !policies.acl.may_publish(self.identity.as_str(), will.topic.as_str()) {
            let text = concat2("will_denied topic=", text::quote(will.topic.as_str()).as_str());
            return WillOutcome::Denied(ClientEvent { client_id: self.id.clone(), text });
        }
        let key = match topic_to_keyexpr(will.topic.as_str(), scope) {
            Ok(key) => key,
            Err(_) => {
                return WillOutcome::Invalid;
            },
        };
        let retained = if will.retain && will.message.len() > 0 {
            RetainedWrite::Store(
                retained_keyexpr(will.topic.as_str(), scope),
                encode_envelope(will.message.as_slice(), now),
            )
        } else {
            RetainedWrite::Leave
        };
        WillOutcome::Fire(Relay { key, payload: will.message, retained })
    }

    /// What is due to the last will when the connection has ended: it fires unless the end
    /// was as agreed, and is gone then. `now` is the time in milliseconds since 1970.
    pub fn settle_will(&mut self, policies: &Policies, scope: &str, as_agreed: bool, now: u64) -> (r:
        WillOutcome)
        ensures
            if as_agreed {
                r is Nothing
            } else {
                will_is_fired(policies@.acl, scope@, *old(self), now, r)
            },
            *final(self) == (Client { will: None, ..*old(self) }),
    {
        if as_agreed {
            self.will = None;
            WillOutcome::Nothing
        } else {
            self.fire_will(policies, scope, now)
        }
    }
}

} // verus!
