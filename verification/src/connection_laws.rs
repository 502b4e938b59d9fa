//! Laws of a connection: what is acknowledged, what reaches the bus, what a subscription
//! is granted and handed, how all of it is counted and told, and when a last will fires.

use crate::auth;
use crate::config::{AclRule, SchemaFailAction, StalenessRule};
use crate::connection::{self, Client, NodeInfo, PublishOutcome, Reaction, RetainedDelivery, RetainedWrite, StreamEnd, SubscribeDecision, WillOutcome};
use crate::gate::ClientEvent;
use crate::metrics::Metrics;
use crate::packet::{Incoming, Message, Outgoing, Publish, QoS, SubscribeCode};
use crate::policy::Policies;
use crate::registry::SessionRegistry;
use crate::retained::{self, RetainedStore};
use crate::schema;
use crate::session::{self, Delivery};
use crate::staleness;
use crate::text;
use crate::topic;
use crate::topic_laws;
use std::collections::VecDeque;
use vstd::prelude::*;
use vstd::string::*;

verus! {

/// A publish that the grants do not allow is acknowledged like any other, and nothing of
/// it reaches the bus; the audit stream hears of it.
pub proof fn law_denied_publish_is_acked_and_dropped(
    before: Client,
    after: Client,
    acl: (Seq<AclRule>, bool),
    node: NodeInfo,
    m: Message,
    verdict: schema::Verdict,
    now: u64,
    r: PublishOutcome,
)
    requires
        connection::publish_is(before, after, acl, node, m, true, verdict, now, r),
        topic::topic_key(m.topic, node.scope@) is Ok,
        !auth::publish_allowed(acl, before.identity@, m.topic),
    ensures
        r matches PublishOutcome::Accept(event, relay, ack) && event is Some && relay is None
            && ack == connection::publish_ack(m.qos, m.pkid),
{
}

/// A publish that fails its schema never reaches the bus: it is dropped and acknowledged,
/// or ends the connection, as the rule says.
pub proof fn law_invalid_data_is_never_relayed(
    before: Client,
    after: Client,
    acl: (Seq<AclRule>, bool),
    node: NodeInfo,
    m: Message,
    in_rate: bool,
    verdict: schema::Verdict,
    now: u64,
    r: PublishOutcome,
)
    requires
        connection::publish_is(before, after, acl, node, m, in_rate, verdict, now, r),
        verdict != schema::Verdict::Pass,
    ensures
        r matches PublishOutcome::Accept(_, relay, ack) ==> relay is None && ack
            == connection::publish_ack(m.qos, m.pkid),
        in_rate && topic::topic_key(m.topic, node.scope@) is Ok && auth::publish_allowed(
            acl,
            before.identity@,
            m.topic,
        ) ==> (r is Fail <==> verdict == schema::Verdict::Fail(SchemaFailAction::Disconnect)),
{
}

/// What a publish puts on the bus is allowed, lies under the key of its own topic, comes
/// back as that topic, and is no key of an internal keyspace.
pub proof fn law_relayed_publishes_keep_to_their_topic(
    before: Client,
    after: Client,
    acl: (Seq<AclRule>, bool),
    node: NodeInfo,
    m: Message,
    in_rate: bool,
    verdict: schema::Verdict,
    now: u64,
    r: PublishOutcome,
    chunk: Seq<char>,
    suffix: Seq<char>,
)
    requires
        connection::publish_is(before, after, acl, node, m, in_rate, verdict, now, r),
        chunk.len() > 0,
        chunk[0] == '@',
    ensures
        r matches PublishOutcome::Accept(_, Some(relay), _) ==> {
            &&& auth::publish_allowed(acl, before.identity@, m.topic)
            &&& topic::key_topic(relay.key@, node.scope@) == Some(m.topic)
            &&& relay.key@ != topic::internal_key(chunk, suffix, node.scope@)
            &&& relay.payload@ == m.payload
        },
{
    if let PublishOutcome::Accept(_, Some(relay), _) = r {
        topic_laws::law_topic_round_trip(m.topic, node.scope@);
        topic_laws::law_topics_cannot_forge(m.topic, chunk, suffix, node.scope@);
    }
}

/// A publish that reaches the bus is delivered to a subscription, on whatever node of the
/// same scope, exactly where the subscription's filter matches its topic, and arrives
/// under that topic. A scope with a `**` chunk of its own is left out.
pub proof fn law_publishes_reach_their_subscribers(
    before: Client,
    after: Client,
    acl: (Seq<AclRule>, bool),
    node: NodeInfo,
    m: Message,
    in_rate: bool,
    verdict: schema::Verdict,
    now: u64,
    r: PublishOutcome,
    subscriber: Client,
    grants: (Seq<AclRule>, bool),
    filter: Seq<char>,
    asked: QoS,
    decision: SubscribeDecision,
)
    requires
        connection::publish_is(before, after, acl, node, m, in_rate, verdict, now, r),
        r matches PublishOutcome::Accept(_, relay, _) && relay is Some,
        connection::subscribe_is(grants, node.scope@, subscriber, filter, asked, decision),
        decision is Activate,
        topic_laws::plain_scope(node.scope@),
    ensures
        r matches PublishOutcome::Accept(_, Some(relay), _) && decision matches SubscribeDecision::Activate(
            key,
            _,
        ) && topic_laws::key_matches(key@, relay.key@) == topic::filter_matches(filter, m.topic)
            && topic::key_topic(relay.key@, node.scope@) == Some(m.topic),
{
    topic_laws::law_routing_agrees(filter, m.topic, node.scope@);
    topic_laws::law_topic_round_trip(m.topic, node.scope@);
}

/// A retained publish that reaches the bus is found, by every filter that matches its
/// topic and with the time it was written, in any replica that takes the write in; an
/// empty one leaves nothing to be found.
pub proof fn law_retained_publish_is_found(
    before: Client,
    after: Client,
    acl: (Seq<AclRule>, bool),
    node: NodeInfo,
    m: Message,
    in_rate: bool,
    verdict: schema::Verdict,
    now: u64,
    r: PublishOutcome,
    store: Map<Seq<char>, Seq<u8>>,
    filter: Seq<char>,
    list: Seq<(Seq<char>, Seq<u8>, u64)>,
)
    requires
        connection::publish_is(before, after, acl, node, m, in_rate, verdict, now, r),
        m.retain,
        topic::filter_matches(filter, m.topic),
        r matches PublishOutcome::Accept(_, Some(relay), _) && retained::is_matching(
            match relay.retained {
                RetainedWrite::Leave => store,
                RetainedWrite::Clear(k) => retained::applied(store, k@, node.scope@, None),
                RetainedWrite::Store(k, v) => retained::applied(
                    store,
                    k@,
                    node.scope@,
                    Some(v@),
                ),
            },
            filter,
            list,
        ),
    ensures
        m.payload.len() > 0 ==> list.contains((m.topic, m.payload, now)),
        m.payload.len() == 0 ==> forall|i: int|
            0 <= i < list.len() ==> (#[trigger] list[i]).0 != m.topic,
{
    if m.payload.len() > 0 {
        retained::law_retained_value_is_found(
            store,
            m.topic,
            node.scope@,
            filter,
            m.payload,
            now,
            list,
        );
    } else {
        retained::law_cleared_value_is_gone(store, m.topic, node.scope@, filter, list);
    }
}

/// A DISCONNECT discards the will: nothing is published for a client that left as agreed.
pub proof fn law_disconnect_discards_the_will(
    before: Client,
    after: Client,
    reaction: Reaction,
    acl: (Seq<AclRule>, bool),
    scope: Seq<char>,
    now: u64,
    r: WillOutcome,
)
    requires
        connection::reaction_is(before, after, Incoming::Disconnect, reaction),
        connection::will_is_fired(acl, scope, after, now, r),
    ensures
        reaction is End,
        r is Nothing,
{
}

/// A connection ends as agreed by a DISCONNECT, or when the peer closes the stream after
/// whole packets; every other end is a fault.
pub proof fn law_agreed_ends(
    before: Client,
    after: Client,
    packet: Incoming,
    reaction: Reaction,
    end: StreamEnd,
)
    requires
        connection::reaction_is(before, after, packet, reaction),
    ensures
        reaction is End <==> packet is Disconnect,
        connection::end_fault(after.keep_alive, end) is None <==> end is PeerClosed,
{
}

/// A will fires at most once.
pub proof fn law_will_fires_once(
    client: Client,
    acl: (Seq<AclRule>, bool),
    scope: Seq<char>,
    now: u64,
    r: WillOutcome,
)
    requires
        connection::will_is_fired(acl, scope, Client { will: None, ..client }, now, r),
    ensures
        r is Nothing,
{
}

/// A will is published only where the client might have published it itself.
pub proof fn law_wills_obey_the_grants(
    client: Client,
    acl: (Seq<AclRule>, bool),
    scope: Seq<char>,
    now: u64,
    r: WillOutcome,
)
    requires
        connection::will_is_fired(acl, scope, client, now, r),
        r is Fire,
    ensures
        client.will matches Some(will) && auth::publish_allowed(
            acl,
            client.identity@,
            will.topic@,
        ),
{
}

/// The QoS 2 handshake: a publish is answered with PUBREC and awaits its PUBREL, which is
/// answered with PUBCOMP and ends the wait.
pub proof fn law_qos2_handshake(
    before: Client,
    published: Client,
    released: Client,
    acl: (Seq<AclRule>, bool),
    node: NodeInfo,
    m: Message,
    in_rate: bool,
    verdict: schema::Verdict,
    now: u64,
    r: PublishOutcome,
    reaction: Reaction,
)
    requires
        m.qos == QoS::ExactlyOnce,
        connection::publish_is(before, published, acl, node, m, in_rate, verdict, now, r),
        r is Accept,
        connection::reaction_is(published, released, Incoming::PubRel(m.pkid), reaction),
    ensures
        r matches PublishOutcome::Accept(_, _, ack) && ack == Some(Outgoing::PubRec(m.pkid)),
        published.inflight@.contains(m.pkid),
        reaction == Reaction::Send(Outgoing::PubComp(m.pkid)),
        !released.inflight@.contains(m.pkid),
        before.inflight@.to_set().remove(m.pkid) == released.inflight@.to_set(),
{
    assert(published.inflight@.to_set().contains(m.pkid));
    assert(!released.inflight@.to_set().contains(m.pkid));
    assert(before.inflight@.to_set().insert(m.pkid).remove(m.pkid)
        =~= before.inflight@.to_set().remove(m.pkid));
}

/// A subscription is activated only within the grants, on a key outside the retained
/// keyspace, and for QoS 1 at most.
pub proof fn law_active_subscriptions_are_granted(
    acl: (Seq<AclRule>, bool),
    scope: Seq<char>,
    client: Client,
    filter: Seq<char>,
    asked: QoS,
    r: SubscribeDecision,
)
    requires
        connection::subscribe_is(acl, scope, client, filter, asked, r),
    ensures
        r matches SubscribeDecision::Activate(key, qos) ==> {
            &&& auth::subscribe_allowed(acl, client.identity@, filter)
            &&& qos != QoS::ExactlyOnce
            &&& qos.number() <= asked.number()
            &&& topic::retained_topic(key@, scope) is None
        },
{
    if r is Activate {
        topic_laws::law_filters_cannot_observe(filter, scope);
    }
}

/// Whatever is sent to a client carries a packet id exactly above QoS 0.
pub proof fn law_messages_carry_packet_ids(
    name: Seq<char>,
    payload: Seq<u8>,
    qos: QoS,
    retain: bool,
    pkid: u16,
)
    requires
        pkid != 0,
    ensures
        ({
            let m = connection::message_to_client(name, payload, qos, retain, pkid);
            (m.pkid == 0) == (qos == QoS::AtMostOnce)
        }),
{
}

/// A new subscription is handed every retained message that its filter matches, with the
/// retain flag; a value past its staleness bound is handed over too, but never without
/// the flag on `$meta`, and a fresh one never with it.
pub proof fn law_stale_values_are_never_silent(
    list: Seq<RetainedDelivery>,
    found: Seq<(Seq<char>, Seq<u8>, u64)>,
    store: Map<Seq<char>, Seq<u8>>,
    filter: Seq<char>,
    pkid: u16,
    qos: QoS,
    rules: Seq<StalenessRule>,
    default_secs: u64,
    scope: Seq<char>,
    now: u64,
    name: Seq<char>,
)
    requires
        retained::is_matching(store, filter, found),
        connection::deliveries_are(list, found, pkid, qos, (rules, default_secs), scope, now),
        store.dom().contains(name),
        topic::filter_matches(filter, name),
    ensures
        exists|i: int|
            0 <= i < list.len() && ({
                let d = #[trigger] list[i];
                let (payload, written_at) = retained::opened(store[name]);
                &&& d.message@.topic == name
                &&& d.message@.payload == payload
                &&& d.message@.retain
                &&& (d.notice is Some) == staleness::is_stale(
                    staleness::bound(rules, default_secs, name),
                    connection::age_of(written_at, now),
                )
            }),
{
    let i = choose|i: int| 0 <= i < found.len() && (#[trigger] found[i]).0 == name;
    assert(list[i].message@.topic == name);
}

/// The messages of one hand-over carry different packet ids above QoS 0, as long as
/// there are fewer than the ids that there are.
pub proof fn law_hand_over_ids_are_distinct(
    list: Seq<RetainedDelivery>,
    found: Seq<(Seq<char>, Seq<u8>, u64)>,
    pkid: u16,
    qos: QoS,
    staleness: (Seq<StalenessRule>, u64),
    scope: Seq<char>,
    now: u64,
    i: int,
    j: int,
)
    requires
        connection::deliveries_are(list, found, pkid, qos, staleness, scope, now),
        qos != QoS::AtMostOnce,
        0 <= i < j < list.len(),
        list.len() <= 65535,
    ensures
        list[i].message@.pkid != 0,
        list[i].message@.pkid != list[j].message@.pkid,
{
    session::law_packet_ids(pkid, i as nat, j as nat);
}

/// Every publish that is in rate, on a valid topic, allowed by the grants and passed by
/// the schema goes on the bus, whatever its quality of service, retain flag and payload:
/// under the key of its topic, with its payload. With the retain flag it is stored as the
/// topic's retained message with the time, or clears it where it is empty; without the
/// flag the retained message is left alone.
pub proof fn law_allowed_publishes_reach_the_bus(
    client: &mut Client,
    policies: &Policies,
    counters: &mut Metrics,
    node: &NodeInfo,
    p: Publish,
    now: u64,
    r: PublishOutcome,
    key: Seq<char>,
)
    requires
        call_ensures(
            Client::judge_publish,
            (client, policies, counters, node, p, true, schema::Verdict::Pass, now),
            r,
        ),
        topic::topic_key(p.topic@, node.scope@) == Ok::<Seq<char>, topic::TopicFault>(key),
        auth::publish_allowed(policies@.acl, old(client).identity@, p.topic@),
    ensures
        r matches PublishOutcome::Accept(None, Some(relay), _) && {
            &&& relay.key@ == key
            &&& relay.payload@ == p.payload@
            &&& !p.retain ==> relay.retained is Leave
            &&& p.retain && p.payload@.len() == 0 ==> {
                relay.retained matches RetainedWrite::Clear(k) && topic::retained_topic(
                    k@,
                    node.scope@,
                ) == Some(p.topic@)
            }
            &&& p.retain && p.payload@.len() > 0 ==> {
                relay.retained matches RetainedWrite::Store(k, v) && topic::retained_topic(
                    k@,
                    node.scope@,
                ) == Some(p.topic@) && retained::opened(v@) == (p.payload@, now)
            }
        },
        *final(counters) == *old(counters),
{
    topic_laws::law_retained_round_trip(p.topic@, node.scope@);
    retained::law_envelope_round_trip(p.payload@, now);
}

/// The same for a publish that data validation is asked about: what it passes goes on
/// the bus.
pub proof fn law_validated_publishes_reach_the_bus(
    client: &mut Client,
    policies: &Policies,
    counters: &mut Metrics,
    node: &NodeInfo,
    p: Publish,
    now: u64,
    r: PublishOutcome,
    key: Seq<char>,
)
    requires
        call_ensures(Client::publish, (client, policies, counters, node, p, true, now), r),
        topic::topic_key(p.topic@, node.scope@) == Ok::<Seq<char>, topic::TopicFault>(key),
        auth::publish_allowed(policies@.acl, old(client).identity@, p.topic@),
        schema::policy_verdict(policies@.schema, p.topic@, p.payload@) == schema::Verdict::Pass,
    ensures
        r matches PublishOutcome::Accept(None, Some(relay), _) && relay.key@ == key
            && relay.payload@ == p.payload@,
        *final(counters) == *old(counters),
{
}

/// Of the publishes of a client the rate, the topic and the schema rule end the
/// connection, and nothing else does; every other publish is acknowledged by its quality
/// of service: not at all, with PUBACK, or with PUBREC, under its own packet id.
pub proof fn law_publishes_are_acknowledged(
    client: &mut Client,
    policies: &Policies,
    counters: &mut Metrics,
    node: &NodeInfo,
    p: Publish,
    in_rate: bool,
    verdict: schema::Verdict,
    now: u64,
    r: PublishOutcome,
)
    requires
        call_ensures(
            Client::judge_publish,
            (client, policies, counters, node, p, in_rate, verdict, now),
            r,
        ),
    ensures
        r is Fail <==> (!in_rate || topic::topic_key(p.topic@, node.scope@) is Err || (
        auth::publish_allowed(policies@.acl, old(client).identity@, p.topic@) && verdict
            == schema::Verdict::Fail(SchemaFailAction::Disconnect))),
        r matches PublishOutcome::Accept(_, _, ack) ==> {
            &&& p.qos.number() == 0 ==> ack is None
            &&& p.qos.number() == 1 ==> ack == Some(Outgoing::PubAck(p.pkid))
            &&& p.qos.number() == 2 ==> ack == Some(Outgoing::PubRec(p.pkid))
        },
{
}

/// A publish never changes who the client is, its keep-alive or its will, and its list of
/// awaited PUBRELs only for an accepted QoS 2 publish, which adds its packet id.
pub proof fn law_publish_keeps_the_client(
    client: &mut Client,
    policies: &Policies,
    counters: &mut Metrics,
    node: &NodeInfo,
    p: Publish,
    in_rate: bool,
    verdict: schema::Verdict,
    now: u64,
    r: PublishOutcome,
    pkid: u16,
)
    requires
        call_ensures(
            Client::judge_publish,
            (client, policies, counters, node, p, in_rate, verdict, now),
            r,
        ),
    ensures
        final(client).session == old(client).session,
        final(client).id@ == old(client).id@,
        final(client).identity@ == old(client).identity@,
        final(client).keep_alive == old(client).keep_alive,
        final(client).will == old(client).will,
        final(client).inflight@.contains(pkid) <==> (old(client).inflight@.contains(pkid) || (
        r is Accept && p.qos.number() == 2 && pkid == p.pkid)),
{
    assert(final(client).inflight@.to_set().contains(pkid) == final(client).inflight@.contains(
        pkid,
    ));
    assert(old(client).inflight@.to_set().contains(pkid) == old(client).inflight@.contains(pkid));
}

/// Every publish that is refused is counted once, under the reason for it, and one that
/// goes through under none: over the rate, outside the grants, or failing its schema. An
/// invalid topic is not counted.
pub proof fn law_refused_publishes_are_counted(
    client: &mut Client,
    policies: &Policies,
    counters: &mut Metrics,
    node: &NodeInfo,
    p: Publish,
    in_rate: bool,
    verdict: schema::Verdict,
    now: u64,
    r: PublishOutcome,
)
    requires
        call_ensures(
            Client::judge_publish,
            (client, policies, counters, node, p, in_rate, verdict, now),
            r,
        ),
        old(counters).rate_limit_disconnects_total < u64::MAX,
        old(counters).publish_denied_total < u64::MAX,
        old(counters).schema_denied_total < u64::MAX,
    ensures
        ({
            let valid = topic::topic_key(p.topic@, node.scope@) is Ok;
            let allowed = auth::publish_allowed(
                policies@.acl,
                old(client).identity@,
                p.topic@,
            );
            let over_rate: int = if !in_rate {
                1
            } else {
                0
            };
            let denied: int = if in_rate && valid && !allowed {
                1
            } else {
                0
            };
            let failed: int = if in_rate && valid && allowed && verdict is Fail {
                1
            } else {
                0
            };
            *final(counters) == (Metrics {
                rate_limit_disconnects_total: (old(counters).rate_limit_disconnects_total
                    + over_rate) as u64,
                publish_denied_total: (old(counters).publish_denied_total + denied) as u64,
                schema_denied_total: (old(counters).schema_denied_total + failed) as u64,
                ..*old(counters)
            })
        }),
{
}

/// Every subscription to a valid filter within the grants is activated, on the key of the
/// filter, and its quality of service is the lower of the one asked for and QoS 1. Every
/// other one is refused and counted; the audit stream hears of those that the grants do
/// not allow.
pub proof fn law_granted_subscriptions_are_activated(
    client: &Client,
    policies: &Policies,
    counters: &mut Metrics,
    node: &NodeInfo,
    filter: &str,
    asked: QoS,
    r: SubscribeDecision,
)
    requires
        call_ensures(Client::subscribe, (client, policies, counters, node, filter, asked), r),
        old(counters).subscribe_denied_total < u64::MAX,
    ensures
        ({
            let key = topic::filter_key(filter@, node.scope@);
            let allowed = auth::subscribe_allowed(policies@.acl, client.identity@, filter@);
            &&& key is Ok && allowed ==> {
                &&& r matches SubscribeDecision::Activate(k, qos)
                &&& k@ == key->Ok_0
                &&& qos.number() <= 1
                &&& asked.number() <= 1 ==> qos.number() == asked.number()
                &&& asked.number() >= 1 ==> qos.number() == 1
                &&& *final(counters) == *old(counters)
            }
            &&& key is Err || !allowed ==> {
                &&& r matches SubscribeDecision::Refuse(event)
                &&& (event is Some) == (key is Ok)
                &&& *final(counters) == (Metrics {
                    subscribe_denied_total: (old(counters).subscribe_denied_total + 1) as u64,
                    ..*old(counters)
                })
            }
        }),
{
}

/// The client is told what became of its subscription: the quality of service granted
/// where the subscriber was declared, else a failure; the first is counted and reported.
pub proof fn law_subscriptions_are_answered(
    client: &Client,
    counters: &mut Metrics,
    filter: &str,
    qos: QoS,
    declared: bool,
    r: (SubscribeCode, Option<ClientEvent>),
)
    requires
        call_ensures(Client::subscribed, (client, counters, filter, qos, declared), r),
        old(counters).subscribes_total < u64::MAX,
    ensures
        declared ==> r.0 == SubscribeCode::Success(qos) && r.1 is Some && *final(counters) == (
        Metrics {
            subscribes_total: (old(counters).subscribes_total + 1) as u64,
            ..*old(counters)
        }),
        !declared ==> r.0 is Failure && r.1 is None && *final(counters) == *old(counters),
        r.1 matches Some(event) ==> event.client_id@ == client.id@,
{
}

/// An UNSUBSCRIBE ends the subscription to that filter and no other, and hands out the
/// task that served it; no other session is touched.
pub proof fn law_unsubscribe_ends_one_subscription(
    client: &Client,
    registry: &mut SessionRegistry,
    filter: &str,
    r: (Option<u64>, ClientEvent),
    other: Seq<char>,
    session: u64,
)
    requires
        call_ensures(Client::unsubscribe, (client, registry, filter), r),
        old(registry)@.all.dom().contains(client.session),
        other != filter@,
        session != client.session,
    ensures
        ({
            let before = old(registry)@;
            let after = final(registry)@;
            let s = before.all[client.session];
            let t = after.all[client.session];
            &&& after.clients == before.clients
            &&& after.all.dom() =~= before.all.dom()
            &&& !t.subs.dom().contains(filter@)
            &&& t.subs.dom().contains(other) == s.subs.dom().contains(other)
            &&& s.subs.dom().contains(other) ==> t.subs[other] == s.subs[other]
            &&& t.queue == s.queue && t.sink == s.sink && t.epoch == s.epoch
            &&& after.all[session] == before.all[session]
            &&& s.subs.dom().contains(filter@) ==> r.0 == Some(s.subs[filter@].task)
            &&& !s.subs.dom().contains(filter@) ==> r.0 is None
            &&& r.1.client_id@ == client.id@
        }),
{
}

/// An end that was not as agreed fires the will of every client that has one on a valid
/// topic within the grants: it goes on the bus under the topic's key with its message,
/// whatever its retain flag, and is retained exactly where the flag is set and it is not
/// empty. Outside the grants it is reported and dropped, on an invalid topic dropped.
/// Afterwards, and after an agreed end, there is no will any more.
pub proof fn law_lost_clients_wills_fire(
    client: &mut Client,
    policies: &Policies,
    scope: &str,
    now: u64,
    r: WillOutcome,
)
    requires
        call_ensures(Client::settle_will, (client, policies, scope, false, now), r),
    ensures
        old(client).will is None ==> r is Nothing,
        old(client).will matches Some(will) ==> {
            let key = topic::topic_key(will.topic@, scope@);
            let allowed = auth::publish_allowed(policies@.acl, old(client).identity@, will.topic@);
            &&& allowed && key is Ok ==> {
                &&& r matches WillOutcome::Fire(relay)
                &&& relay.key@ == key->Ok_0
                &&& relay.payload@ == will.message@
                &&& !will.retain || will.message@.len() == 0 ==> relay.retained is Leave
                &&& will.retain && will.message@.len() > 0 ==> {
                    relay.retained matches RetainedWrite::Store(k, v) && topic::retained_topic(
                        k@,
                        scope@,
                    ) == Some(will.topic@) && retained::opened(v@) == (will.message@, now)
                }
            }
            &&& allowed && key is Err ==> r is Invalid
            &&& !allowed ==> (r matches WillOutcome::Denied(event) && event.client_id@ == old(
                client,
            ).id@)
        },
        final(client).will is None,
        final(client).identity@ == old(client).identity@,
        final(client).inflight@ == old(client).inflight@,
{
    if let Some(will) = old(client).will {
        topic_laws::law_retained_round_trip(will.topic@, scope@);
        retained::law_envelope_round_trip(will.message@, now);
    }
}

/// Firing a will, asked for by itself, comes to the same as the end of a lost connection.
pub proof fn law_a_will_fires_in_full(
    client: &mut Client,
    policies: &Policies,
    scope: &str,
    now: u64,
    r: WillOutcome,
)
    requires
        call_ensures(Client::fire_will, (client, policies, scope, now), r),
        old(client).will matches Some(will) && topic::topic_key(will.topic@, scope@) is Ok
            && auth::publish_allowed(policies@.acl, old(client).identity@, will.topic@),
    ensures
        old(client).will matches Some(will) && r matches WillOutcome::Fire(relay)
            && topic::topic_key(will.topic@, scope@) == Ok::<Seq<char>, topic::TopicFault>(
            relay.key@,
        ) && relay.payload@ == will.message@,
        final(client).will is None,
{
}

/// After an agreed end no will fires, and none is left.
pub proof fn law_agreed_ends_fire_no_will(
    client: &mut Client,
    policies: &Policies,
    scope: &str,
    now: u64,
    r: WillOutcome,
)
    requires
        call_ensures(Client::settle_will, (client, policies, scope, true, now), r),
    ensures
        r is Nothing,
        final(client).will is None,
{
}

/// A client may be silent for one and a half times its keep-alive, to the millisecond;
/// a keep-alive of 0 sets no limit.
pub proof fn law_silence_is_allowed_for_half_a_period_more(keep_alive: u16, r: Option<u64>)
    requires
        call_ensures(connection::idle_limit_millis, (keep_alive,), r),
    ensures
        r is None <==> keep_alive == 0,
        r matches Some(millis) ==> 2 * millis == 3 * (1000 * keep_alive),
{
}

/// Every packet gets its reaction: a publish, a SUBSCRIBE and an UNSUBSCRIBE are handled
/// with all that they carry, a PUBREL and a PINGREQ are answered, acknowledgements are
/// taken in silence, and a second CONNECT or a packet that no client may send breaks the
/// connection. Only a PUBREL changes the list of awaited PUBRELs, by its own packet id.
pub proof fn law_packets_get_their_reactions(
    client: &mut Client,
    packet: Incoming,
    r: Reaction,
    pkid: u16,
)
    requires
        call_ensures(Client::react, (client, packet), r),
    ensures
        packet matches Incoming::Publish(p) ==> r == Reaction::Publish(p),
        packet matches Incoming::Subscribe(n, filters) ==> r == Reaction::Subscribe(n, filters),
        packet matches Incoming::Unsubscribe(n, filters) ==> r == Reaction::Unsubscribe(n, filters),
        packet matches Incoming::PubRel(n) ==> r == Reaction::Send(Outgoing::PubComp(n)),
        packet is PingReq ==> r == Reaction::Send(Outgoing::PingResp),
        packet is Disconnect ==> r is End && final(client).will is None,
        packet is Ack ==> r is Nothing,
        packet is Connect || packet is Unexpected <==> r is Fail,
        packet !is Disconnect ==> final(client).will == old(client).will,
        final(client).identity@ == old(client).identity@,
        final(client).id@ == old(client).id@,
        final(client).session == old(client).session,
        final(client).keep_alive == old(client).keep_alive,
        final(client).inflight@.contains(pkid) <==> old(client).inflight@.contains(pkid)
            && packet != Incoming::PubRel(pkid),
{
    assert(final(client).inflight@.to_set().contains(pkid) == final(client).inflight@.contains(
        pkid,
    ));
    assert(old(client).inflight@.to_set().contains(pkid) == old(client).inflight@.contains(pkid));
}

/// A stream that ends after whole packets ends the connection as agreed; every other end
/// breaks it, and a kick does so for the reason on record, or else as a takeover.
pub proof fn law_stream_ends_are_told_apart(
    client: &Client,
    end: StreamEnd,
    r: Reaction,
    pending: usize,
    closed: StreamEnd,
)
    requires
        call_ensures(Client::stream_ended, (client, end), r),
        call_ensures(StreamEnd::closed, (pending,), closed),
    ensures
        end is PeerClosed ==> r is End,
        end !is PeerClosed ==> r is Fail,
        closed is PeerClosed <==> pending == 0,
        closed is CutOff <==> pending > 0,
        end matches StreamEnd::Kicked(Some(why)) ==> (r matches Reaction::Fail(e) && e@ == why@),
        end matches StreamEnd::Kicked(None) ==> (r matches Reaction::Fail(e) && e@
            == session::KICK_TAKEOVER@),
{
}

/// Whatever is sent to a client is the message that was to be sent: topic, payload,
/// quality of service and retain flag as they are, no duplicate, and above QoS 0 the
/// packet id given.
pub proof fn law_messages_to_clients_are_whole(
    topic: String,
    payload: Vec<u8>,
    qos: QoS,
    retain: bool,
    pkid: u16,
    r: Publish,
)
    requires
        call_ensures(connection::to_client, (topic, payload, qos, retain, pkid), r),
    ensures
        r.topic@ == topic@,
        r.payload@ == payload@,
        r.qos == qos,
        r.retain == retain,
        !r.dup,
        qos.number() == 0 ==> r.pkid == 0,
        qos.number() > 0 ==> r.pkid == pkid,
{
}

/// A retained message older than its staleness bound, to the millisecond, is flagged on
/// the `$meta` key of its topic; one that is not older is not, and without a bound none
/// is, nor where the clock is behind the time of writing.
pub proof fn law_flags_follow_the_bound(
    policies: &Policies,
    scope: &str,
    name: &str,
    written_at: u64,
    now: u64,
    r: Option<(String, String)>,
    bound: u64,
)
    requires
        call_ensures(connection::stale_notice, (policies, scope, name, written_at, now), r),
        bound == staleness::bound(policies@.staleness.0, policies@.staleness.1, name@),
    ensures
        r is Some <==> bound > 0 && now - written_at > 1000 * bound,
        r matches Some((key, _)) ==> topic::key_topic(key@, scope@) == Some(
            "$meta"@ + seq!['/'] + name@,
        ),
{
    topic_laws::law_meta_round_trip(name@, scope@);
}

/// What was queued for a client is handed over whole and in its order, at QoS 1, without
/// the retain flag, under packet ids that are never 0; other sessions are not touched,
/// and the session keeps its subscriptions.
pub proof fn law_backlogs_are_handed_over_in_order(
    client: &Client,
    registry: &mut SessionRegistry,
    backlog: &VecDeque<(String, Vec<u8>)>,
    r: Vec<Publish>,
    i: int,
)
    requires
        call_ensures(Client::deliver_backlog, (client, registry, backlog), r),
        old(registry)@.all.dom().contains(client.session),
        0 <= i < backlog@.len(),
    ensures
        r@.len() == backlog@.len(),
        r@[i].topic@ == backlog@[i].0@,
        r@[i].payload@ == backlog@[i].1@,
        r@[i].qos.number() == 1,
        !r@[i].retain,
        r@[i].pkid != 0,
        final(registry)@.clients == old(registry)@.clients,
        final(registry)@.all[client.session].subs == old(registry)@.all[client.session].subs,
        final(registry)@.all[client.session].queue == old(registry)@.all[client.session].queue,
{
    let list = session::messages(backlog@);
    assert(list[i] == (backlog@[i].0@, backlog@[i].1@));
    assert(r@[i]@ == connection::message_to_client(
        list[i].0,
        list[i].1,
        QoS::AtLeastOnce,
        false,
        session::nth_packet_id(old(registry)@.all[client.session].pkid, i as nat),
    ));
    session::law_packet_ids(old(registry)@.all[client.session].pkid, i as nat, i as nat + 1);
}

/// A new subscription is handed every retained message that its filter matches, with its
/// payload, at the quality of service granted and with the retain flag, and it is handed
/// nothing else.
pub proof fn law_subscribers_get_the_retained_messages(
    client: &Client,
    registry: &mut SessionRegistry,
    store: &mut RetainedStore,
    policies: &Policies,
    scope: &str,
    filter: &str,
    qos: QoS,
    now: u64,
    r: Vec<RetainedDelivery>,
    name: Seq<char>,
)
    requires
        call_ensures(
            Client::deliver_retained,
            (client, registry, store, policies, scope, filter, qos, now),
            r,
        ),
        old(registry)@.all.dom().contains(client.session),
    ensures
        (exists|i: int|
            0 <= i < r@.len() && (#[trigger] r@[i]).message.topic@ == name) <==> (old(
            store,
        )@.dom().contains(name) && topic::filter_matches(filter@, name)),
        forall|i: int|
            0 <= i < r@.len() ==> {
                let m = (#[trigger] r@[i]).message;
                &&& m.retain
                &&& m.qos == qos
                &&& m.payload@ == retained::opened(old(store)@[m.topic@]).0
                &&& (m.pkid == 0) == (qos.number() == 0)
            },
        final(store)@ == old(store)@,
{
    let pkid = old(registry)@.all[client.session].pkid;
    let found = choose|found: Seq<(Seq<char>, Seq<u8>, u64)>| #[trigger]
        retained::is_matching(old(store)@, filter@, found) && connection::deliveries_are(
            r@,
            found,
            pkid,
            qos,
            policies@.staleness,
            scope@,
            now,
        );
    assert forall|i: int| 0 <= i < r@.len() implies {
        let m = (#[trigger] r@[i]).message;
        &&& m.retain
        &&& m.qos == qos
        &&& m.topic@ == found[i].0
        &&& m.payload@ == retained::opened(old(store)@[m.topic@]).0
        &&& (m.pkid == 0) == (qos.number() == 0)
    } by {
        assert(r@[i].message@.topic == found[i].0);
        session::law_packet_ids(pkid, i as nat, i as nat + 1);
    }
    if old(store)@.dom().contains(name) && topic::filter_matches(filter@, name) {
        let i = choose|i: int| 0 <= i < found.len() && (#[trigger] found[i]).0 == name;
        assert(r@[i].message.topic@ == name);
    }
}

/// A delivery is counted by what became of it: a message sent, a message queued, and
/// nothing for one that was dropped; no other counter moves.
pub proof fn law_deliveries_are_counted(counters: &mut Metrics, d: Delivery)
    requires
        call_ensures(connection::count_delivery, (counters, d), ()),
        old(counters).messages_out_total < u64::MAX,
        old(counters).messages_queued_total < u64::MAX,
    ensures
        d is Sent ==> *final(counters) == (Metrics {
            messages_out_total: (old(counters).messages_out_total + 1) as u64,
            ..*old(counters)
        }),
        d is Queued ==> *final(counters) == (Metrics {
            messages_queued_total: (old(counters).messages_queued_total + 1) as u64,
            ..*old(counters)
        }),
        d is Dropped ==> *final(counters) == *old(counters),
{
}

/// A retained message that was sent counts as sent, and as stale where it was flagged.
pub proof fn law_retained_deliveries_are_counted(counters: &mut Metrics, flagged: bool)
    requires
        call_ensures(connection::count_retained, (counters, flagged), ()),
        old(counters).messages_out_total < u64::MAX,
        old(counters).stale_retained_total < u64::MAX,
    ensures
        *final(counters) == (Metrics {
            messages_out_total: (old(counters).messages_out_total + 1) as u64,
            stale_retained_total: (old(counters).stale_retained_total + (if flagged {
                1int
            } else {
                0int
            })) as u64,
            ..*old(counters)
        }),
{
}

/// A publish that the bus has taken counts as taken in, and its retained message is to be
/// written as it was decided; one that the bus has refused ends the connection, and
/// counts as nothing.
pub proof fn law_relayed_publishes_are_counted(
    counters: &mut Metrics,
    key: &str,
    write: RetainedWrite,
    put: Result<(), String>,
    r: Result<RetainedWrite, String>,
)
    requires
        call_ensures(connection::relayed, (counters, key, write, put), r),
        old(counters).messages_in_total < u64::MAX,
    ensures
        put is Ok ==> r == Ok::<RetainedWrite, String>(write) && *final(counters) == (Metrics {
            messages_in_total: (old(counters).messages_in_total + 1) as u64,
            ..*old(counters)
        }),
        put is Err ==> r is Err && *final(counters) == *old(counters),
{
}

/// A publish comes to what its schema says: the same as a publish on which data validation
/// has given its verdict.
pub proof fn law_publishes_go_by_their_schema(
    client: &mut Client,
    policies: &Policies,
    counters: &mut Metrics,
    node: &NodeInfo,
    p: Publish,
    in_rate: bool,
    now: u64,
    r: PublishOutcome,
    twin: &mut Client,
    tally: &mut Metrics,
    judged: PublishOutcome,
)
    requires
        call_ensures(Client::publish, (client, policies, counters, node, p, in_rate, now), r),
        call_ensures(
            Client::judge_publish,
            (
                twin,
                policies,
                tally,
                node,
                p,
                in_rate,
                schema::policy_verdict(policies@.schema, p.topic@, p.payload@),
                now,
            ),
            judged,
        ),
        *old(twin) == *old(client),
        *old(tally) == *old(counters),
    ensures
        *final(counters) == *final(tally),
        r is Fail <==> judged is Fail,
        r matches PublishOutcome::Accept(event, relay, ack)
            ==> judged matches PublishOutcome::Accept(other_event, other_relay, other_ack) && {
            &&& event is Some <==> other_event is Some
            &&& relay is Some <==> other_relay is Some
            &&& relay is Some ==> relay->0.key@ == other_relay->0.key@ && relay->0.payload@
                == other_relay->0.payload@
            &&& ack == other_ack
        },
        final(client).will == final(twin).will,
        final(client).identity@ == final(twin).identity@,
{
}

/// The reason that a publish ends a connection is told: the rate that was exceeded, what
/// is wrong with the topic, or the topic whose schema failed. The audit stream is told the
/// client and the topic of a publish that the grants do not allow.
pub proof fn law_refused_publishes_are_explained(
    client: &mut Client,
    policies: &Policies,
    counters: &mut Metrics,
    node: &NodeInfo,
    p: Publish,
    in_rate: bool,
    verdict: schema::Verdict,
    now: u64,
    r: PublishOutcome,
)
    requires
        call_ensures(
            Client::judge_publish,
            (client, policies, counters, node, p, in_rate, verdict, now),
            r,
        ),
    ensures
        !in_rate ==> (r matches PublishOutcome::Fail(why) && why@
            == "publish rate limit exceeded ("@ + text::decimal(node.max_publish_rate as nat)
            + "/s), disconnecting"@),
        in_rate && topic::topic_key(p.topic@, node.scope@) is Err ==> (
        r matches PublishOutcome::Fail(why) && why@ == "invalid publish topic "@ + text::quoted(
            p.topic@,
        ) + ": "@ + topic::fault_text(topic::topic_key(p.topic@, node.scope@)->Err_0)),
        in_rate && topic::topic_key(p.topic@, node.scope@) is Ok ==> (
        r matches PublishOutcome::Fail(why) ==> why@ == "publish on "@ + text::quoted(p.topic@)
            + " failed schema validation, disconnecting"@),
        r matches PublishOutcome::Accept(event, _, _) ==> {
            &&& event is Some <==> !auth::publish_allowed(
                policies@.acl,
                old(client).identity@,
                p.topic@,
            )
            &&& event matches Some(e) ==> e.client_id@ == old(client).id@ && e.text@
                == "publish_denied topic="@ + text::quoted(p.topic@)
        },
{
}

/// The events of a client's life: the address and kind of session that it connected with,
/// how its connection ended, the filters that it subscribed to and let go of, and what was
/// denied to it. Each names the client.
pub proof fn law_client_events(
    client: &Client,
    peer: &str,
    clean: bool,
    connected: ClientEvent,
    as_agreed: bool,
    ended: ClientEvent,
)
    requires
        call_ensures(Client::connect_event, (client, peer, clean), connected),
        call_ensures(Client::disconnect_event, (client, as_agreed), ended),
    ensures
        connected.client_id@ == client.id@,
        clean ==> connected.text@ == "connect addr="@ + peer@ + " clean="@ + "true"@,
        !clean ==> connected.text@ == "connect addr="@ + peer@ + " clean="@ + "false"@,
        ended.client_id@ == client.id@,
        as_agreed ==> ended.text@ == "disconnect reason="@ + "clean"@,
        !as_agreed ==> ended.text@ == "disconnect reason="@ + "abnormal"@,
{
}

/// The events of subscriptions name the filter and, where one was made, the quality of
/// service granted; a will that the grants do not allow is reported with its topic.
pub proof fn law_subscription_events(
    client: &Client,
    policies: &Policies,
    counters: &mut Metrics,
    node: &NodeInfo,
    filter: &str,
    asked: QoS,
    decision: SubscribeDecision,
    tally: &mut Metrics,
    qos: QoS,
    answer: (SubscribeCode, Option<ClientEvent>),
    registry: &mut SessionRegistry,
    gone: (Option<u64>, ClientEvent),
    lost: &mut Client,
    now: u64,
    scope: &str,
    will: WillOutcome,
)
    requires
        call_ensures(Client::subscribe, (client, policies, counters, node, filter, asked), decision),
        call_ensures(Client::subscribed, (client, tally, filter, qos, true), answer),
        call_ensures(Client::unsubscribe, (client, registry, filter), gone),
        call_ensures(Client::fire_will, (lost, policies, scope, now), will),
    ensures
        decision matches SubscribeDecision::Refuse(Some(e)) ==> e.client_id@ == client.id@
            && e.text@ == "subscribe_denied filter="@ + text::quoted(filter@),
        answer.1 matches Some(e) && e.client_id@ == client.id@ && e.text@ == "subscribe filter="@
            + filter@ + " qos="@ + (if qos.number() == 0 {
            "AtMostOnce"@
        } else if qos.number() == 1 {
            "AtLeastOnce"@
        } else {
            "ExactlyOnce"@
        }),
        gone.1.client_id@ == client.id@ && gone.1.text@ == "unsubscribe filter="@ + filter@,
        will matches WillOutcome::Denied(e) ==> e.client_id@ == old(lost).id@ && e.text@
            == "will_denied topic="@ + text::quoted(old(lost).will->0.topic@),
{
}

/// Why a connection was broken is told by its end: what the reader has found, how long the
/// silence may have lasted, or why it was kicked.
pub proof fn law_broken_connections_are_explained(keep_alive: u16, end: StreamEnd, r: Option<String>)
    requires
        call_ensures(connection::end_text, (keep_alive, end), r),
    ensures
        end is PeerClosed <==> r is None,
        end is CutOff ==> r->0@ == "connection closed by peer"@,
        end matches StreamEnd::Malformed(e) ==> r->0@ == "malformed MQTT packet: "@ + e@,
        end matches StreamEnd::Broken(e) ==> r->0@ == "socket read: "@ + e@,
        end is Silent ==> r->0@ == "keep-alive expired ("@ + text::decimal(keep_alive as nat)
            + "s)"@,
        end matches StreamEnd::Kicked(Some(why)) ==> r->0@ == why@,
        end matches StreamEnd::Kicked(None) ==> r->0@ == "session taken over by a new connection"@,
{
}

/// A packet that breaks the connection is told: a second CONNECT as such, another by its
/// words.
pub proof fn law_breaking_packets_are_explained(client: &mut Client, packet: Incoming, r: Reaction)
    requires
        call_ensures(Client::react, (client, packet), r),
    ensures
        packet is Connect ==> (r matches Reaction::Fail(why) && why@ == "duplicate CONNECT"@),
        packet matches Incoming::Unexpected(words) ==> (r matches Reaction::Fail(why) && why@
            == "unexpected packet "@ + words@),
{
}

/// The companion of a stale message tells its age and its bound in whole seconds.
pub proof fn law_flags_tell_age_and_bound(
    policies: &Policies,
    scope: &str,
    name: &str,
    written_at: u64,
    now: u64,
    r: Option<(String, String)>,
    secs: nat,
)
    requires
        call_ensures(connection::stale_notice, (policies, scope, name, written_at, now), r),
        1000 * secs <= now - written_at < 1000 * (secs + 1),
    ensures
        r matches Some((_, words)) ==> words@ == "stale=true age_secs="@ + text::decimal(secs)
            + " bound_secs="@ + text::decimal(
            staleness::bound(policies@.staleness.0, policies@.staleness.1, name@) as nat,
        ),
{
    if r is Some {
        let age = (now - written_at) as nat;
        assert(age / 1000 == secs);
    }
}

/// A hand-over uses up one packet id for each message above QoS 0, and none at QoS 0: the
/// next id of the session is the one after them. Nothing else of the session changes, nor
/// of any other; for a session that is not known there is nothing to hand over.
pub proof fn law_hand_overs_use_up_packet_ids(
    client: &Client,
    registry: &mut SessionRegistry,
    store: &mut RetainedStore,
    policies: &Policies,
    scope: &str,
    filter: &str,
    qos: QoS,
    now: u64,
    r: Vec<RetainedDelivery>,
    later: &mut SessionRegistry,
    next: Option<u16>,
)
    requires
        call_ensures(
            Client::deliver_retained,
            (client, registry, store, policies, scope, filter, qos, now),
            r,
        ),
        call_ensures(SessionRegistry::next_pkid, (later, client.session), next),
        old(later)@ == final(registry)@,
    ensures
        !old(registry)@.all.dom().contains(client.session) ==> r@.len() == 0 && final(registry)@
            == old(registry)@,
        old(registry)@.all.dom().contains(client.session) ==> {
            let before = old(registry)@.all[client.session];
            let after = final(registry)@.all[client.session];
            &&& final(registry)@.all.remove(client.session) =~= old(registry)@.all.remove(
                client.session,
            )
            &&& final(registry)@.clients == old(registry)@.clients
            &&& after == (session::Session { pkid: after.pkid, ..before })
            &&& qos.number() == 0 ==> after.pkid == before.pkid
            &&& qos.number() > 0 ==> next == Some(session::nth_packet_id(before.pkid, r@.len()))
        },
{
}

/// The same of a backlog: one packet id for each message, and nothing for a session that
/// is not known.
pub proof fn law_backlogs_use_up_packet_ids(
    client: &Client,
    registry: &mut SessionRegistry,
    backlog: &VecDeque<(String, Vec<u8>)>,
    r: Vec<Publish>,
    later: &mut SessionRegistry,
    next: Option<u16>,
)
    requires
        call_ensures(Client::deliver_backlog, (client, registry, backlog), r),
        call_ensures(SessionRegistry::next_pkid, (later, client.session), next),
        old(later)@ == final(registry)@,
    ensures
        !old(registry)@.all.dom().contains(client.session) ==> r@.len() == 0 && final(registry)@
            == old(registry)@,
        old(registry)@.all.dom().contains(client.session) ==> {
            let before = old(registry)@.all[client.session];
            let after = final(registry)@.all[client.session];
            &&& final(registry)@.all.remove(client.session) =~= old(registry)@.all.remove(
                client.session,
            )
            &&& after == (session::Session { pkid: after.pkid, ..before })
            &&& r@.len() == backlog@.len()
            &&& next == Some(session::nth_packet_id(before.pkid, backlog@.len()))
        },
{
    assert(session::messages(backlog@).len() == backlog@.len());
}

} // verus!
