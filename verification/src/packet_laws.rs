//! Laws of packets on the wire: what the bytes of each packet to a client say, and that a
//! packet from a client is taken as it was read.

use crate::packet::{self, ConnectCode, Incoming, Outgoing, PacketFields, Publish, QoS, Reading, Received, SubscribeCode};
use crate::text;
use vstd::prelude::*;
use vstd::string::*;

verus! {

/// The quality of service on the wire is its number, and a number is read back as the
/// quality of service that it stands for; more than two counts as two.
pub proof fn law_qos_numbers(qos: QoS, number: u8, n: u8, read: QoS)
    requires
        call_ensures(QoS::to_number, (qos,), number),
        call_ensures(QoS::from_number, (n,), read),
    ensures
        qos is AtMostOnce <==> number == 0,
        qos is AtLeastOnce <==> number == 1,
        qos is ExactlyOnce <==> number == 2,
        n == number ==> read == qos,
        n > 2 ==> read is ExactlyOnce,
{
}

/// Acknowledgements are four bytes: the kind, the length of what follows, and the packet
/// id, most significant byte first. A PINGRESP is two bytes.
pub proof fn law_acknowledgements_on_the_wire(packet: &Outgoing, r: Option<Vec<u8>>, pkid: u16)
    requires
        call_ensures(packet::encode, (packet,), r),
        *packet == Outgoing::PubAck(pkid) || *packet == Outgoing::PubRec(pkid) || *packet
            == Outgoing::PubComp(pkid) || *packet == Outgoing::UnsubAck(pkid) || *packet
            == Outgoing::PingResp,
    ensures
        r matches Some(b) && {
            &&& packet is PubAck ==> b@[0] == 0x40
            &&& packet is PubRec ==> b@[0] == 0x50
            &&& packet is PubComp ==> b@[0] == 0x70
            &&& packet is UnsubAck ==> b@[0] == 0xB0
            &&& packet is PingResp ==> b@ =~= seq![0xD0u8, 0u8]
            &&& packet !is PingResp ==> b@.len() == 4 && b@[1] == 2 && b@[2] * 256 + b@[3] == pkid
        },
{
}

/// A CONNACK says whether a session was present and, by its number, how the CONNECT was
/// answered.
pub proof fn law_connacks_on_the_wire(
    packet: &Outgoing,
    r: Option<Vec<u8>>,
    present: bool,
    code: ConnectCode,
)
    requires
        call_ensures(packet::encode, (packet,), r),
        *packet == Outgoing::ConnAck(present, code),
    ensures
        r matches Some(b) && {
            &&& b@.len() == 4 && b@[0] == 0x20 && b@[1] == 2
            &&& b@[2] == 1 <==> present
            &&& b@[2] == 0 <==> !present
            &&& code is Success <==> b@[3] == 0
            &&& code is ServiceUnavailable <==> b@[3] == 3
            &&& code is BadUserNamePassword <==> b@[3] == 4
            &&& code is NotAuthorized <==> b@[3] == 5
        },
{
}

/// The number in a remaining length: seven bits per byte, least significant first.
pub open spec fn varint_value(b: Seq<u8>) -> int
    decreases b.len(),
{
    if b.len() == 0 {
        0
    } else {
        b[0] % 128 + 128 * varint_value(b.skip(1))
    }
}

proof fn lemma_varint(n: nat)
    ensures
        packet::varint(n).len() > 0,
        varint_value(packet::varint(n)) == n,
        packet::varint(n).last() < 128,
        forall|i: int|
            0 <= i < packet::varint(n).len() - 1 ==> #[trigger] packet::varint(n)[i] >= 128,
    decreases n,
{
    let v = packet::varint(n);
    if n < 128 {
        assert(v =~= seq![n as u8]);
        assert(v.skip(1) =~= Seq::empty());
        assert(varint_value(Seq::empty()) == 0);
    } else {
        lemma_varint(n / 128);
        let rest = packet::varint(n / 128);
        assert(v =~= seq![(n % 128 + 128) as u8] + rest);
        assert(v.skip(1) =~= rest);
        assert(v.last() == rest.last());
        assert forall|i: int| 0 <= i < v.len() - 1 implies #[trigger] v[i] >= 128 by {
            if i > 0 {
                assert(v[i] == rest[i - 1]);
            }
        }
    }
}

/// A SUBACK carries the packet id and one byte for each filter, in their order: the
/// quality of service granted, or 0x80 for a failure. Its length stands before them.
pub proof fn law_subacks_on_the_wire(
    packet: &Outgoing,
    r: Option<Vec<u8>>,
    pkid: u16,
    codes: Vec<SubscribeCode>,
    i: int,
)
    requires
        call_ensures(packet::encode, (packet,), r),
        *packet == Outgoing::SubAck(pkid, codes),
        codes@.len() <= 268_435_453,
        0 <= i < codes@.len(),
    ensures
        r matches Some(b) && {
            let n = b@.len() - codes@.len();
            &&& b@[0] == 0x90
            &&& n >= 4
            &&& varint_value(b@.subrange(1, n - 2)) == 2 + codes@.len()
            &&& b@[n - 2] * 256 + b@[n - 1] == pkid
            &&& codes@[i] matches SubscribeCode::Success(qos) ==> b@[n + i] == qos.number()
            &&& codes@[i] is Failure ==> b@[n + i] == 0x80
        },
{
    let len = packet::varint(2 + codes@.len());
    lemma_varint(2 + codes@.len());
    if let Some(b) = r {
        let n = b@.len() - codes@.len();
        let bytes = packet::code_bytes(codes@);
        assert(bytes.len() == codes@.len());
        assert(bytes[i] == packet::subscribe_code(codes@[i]));
        assert(b@ =~= seq![0x90u8] + len + packet::be16(pkid as int) + bytes);
        assert(b@.subrange(1, n - 2) =~= len);
        assert(b@[n + i] == bytes[i]);
        assert(b@[n - 2] == packet::be16(pkid as int)[0]);
        assert(b@[n - 1] == packet::be16(pkid as int)[1]);
    }
}

/// A PUBLISH on the wire: the flags, the length of the rest, the topic with its length,
/// above QoS 0 the packet id, and the payload to the end. It cannot be written only where
/// it is too long, or has no packet id above QoS 0.
pub proof fn law_publishes_on_the_wire(
    packet: &Outgoing,
    r: Option<Vec<u8>>,
    m: Publish,
    id: int,
    body: int,
)
    requires
        call_ensures(packet::encode, (packet,), r),
        *packet == Outgoing::Publish(m),
        id == (if m.qos.number() == 0 {
            0int
        } else {
            2int
        }),
        body == 2 + vstd::utf8::encode_utf8(m.topic@).len() + id + m.payload@.len(),
    ensures
        r is Some <==> (m.qos.number() == 0 || m.pkid != 0) && body <= 268_435_455,
        r matches Some(b) ==> {
            let topic = vstd::utf8::encode_utf8(m.topic@);
            let n = b@.len() - body;
            &&& b@[0] == 0x30 + (if m.dup {
                8int
            } else {
                0int
            }) + 2 * m.qos.number() + (if m.retain {
                1int
            } else {
                0int
            })
            &&& n >= 2
            &&& varint_value(b@.subrange(1, n)) == body
            &&& topic.len() <= 65535 ==> b@[n] * 256 + b@[n + 1] == topic.len()
            &&& b@.subrange(n + 2, n + 2 + topic.len()) =~= topic
            &&& id == 2 ==> b@[n + 2 + topic.len()] * 256 + b@[n + 3 + topic.len()] == m.pkid
            &&& b@.skip(b@.len() - m.payload@.len()) =~= m.payload@
        },
{
    let topic = vstd::utf8::encode_utf8(m.topic@);
    let whole = packet::publish_body(m@);
    assert(whole.len() == body);
    lemma_varint(whole.len());
    if let Some(b) = r {
        let n = b@.len() - body;
        let flags = packet::publish_bytes(m@)[0];
        let head = seq![flags] + packet::varint(whole.len());
        assert(b@ =~= head + whole);
        assert(b@.subrange(1, n) =~= packet::varint(whole.len()));
        assert(b@.skip(n) =~= whole);
        assert(b@[n] == whole[0] && b@[n + 1] == whole[1]);
        assert(whole.subrange(2, 2 + topic.len() as int) =~= topic);
        assert(b@.subrange(n + 2, n + 2 + topic.len()) =~= topic);
        if id == 2 {
            assert(b@[n + 2 + topic.len()] == whole[2 + topic.len() as int]);
            assert(b@[n + 3 + topic.len()] == whole[3 + topic.len() as int]);
        }
    }
}

/// Bytes that hold a packet are read as that packet, all of its bytes and no more are
/// taken, and its fields are those on the wire.
pub proof fn law_packets_are_taken_as_read(
    bytes: &[u8],
    max_size: usize,
    r: Reading,
    fields: PacketFields,
    left: nat,
)
    requires
        call_ensures(packet::read_packet, (bytes, max_size), r),
        packet::received(bytes@, max_size) == Received::Packet(fields, left),
    ensures
        r matches Reading::Packet(p, taken) && {
            &&& taken + left == bytes@.len()
            &&& taken > 0
            &&& fields is PingReq <==> p is PingReq
            &&& fields is Disconnect <==> p is Disconnect
            &&& fields is Ack <==> p is Ack
            &&& fields matches PacketFields::PubRel(id) ==> p == Incoming::PubRel(id)
            &&& fields matches PacketFields::Unexpected(words) ==> (
            p matches Incoming::Unexpected(w) && w@ == words)
            &&& fields matches PacketFields::Publish(dup, qos, retain, topic, pkid, payload) ==> (
            p matches Incoming::Publish(m) && m.dup == dup && m.retain == retain && m.topic@ == topic
                && m.pkid == pkid && m.payload@ == payload && (qos <= 2 ==> m.qos.number() == qos))
            &&& fields matches PacketFields::Connect(f) ==> (p matches Incoming::Connect(c)
                && c.keep_alive == f.keep_alive && c.client_id@ == f.client_id && c.clean_session
                == f.clean_session && (c.last_will is Some <==> f.last_will is Some) && (
            c.login is Some <==> f.login is Some))
        },
{
}

/// The will and the login of a CONNECT are taken as they are on the wire.
pub proof fn law_wills_and_logins_are_taken_as_read(
    bytes: &[u8],
    max_size: usize,
    r: Reading,
    f: packet::ConnectFields,
    left: nat,
)
    requires
        call_ensures(packet::read_packet, (bytes, max_size), r),
        packet::received(bytes@, max_size) == Received::Packet(PacketFields::Connect(f), left),
    ensures
        r matches Reading::Packet(Incoming::Connect(c), _) && {
            &&& f.last_will matches Some(w) ==> (c.last_will matches Some(will) && will.topic@
                == w.topic && will.message@ == w.message && will.retain == w.retain && (w.qos <= 2
                ==> will.qos.number() == w.qos))
            &&& f.login matches Some((user, password)) ==> (c.login matches Some(login)
                && login.username@ == user && login.password@ == password)
        },
{
}

/// The filters of a SUBSCRIBE and of an UNSUBSCRIBE are taken all and in their order, the
/// former with the quality of service asked for.
pub proof fn law_filters_are_taken_as_read(
    bytes: &[u8],
    max_size: usize,
    r: Reading,
    fields: PacketFields,
    left: nat,
    i: int,
)
    requires
        call_ensures(packet::read_packet, (bytes, max_size), r),
        packet::received(bytes@, max_size) == Received::Packet(fields, left),
    ensures
        fields matches PacketFields::Subscribe(id, list) ==> (
        r matches Reading::Packet(Incoming::Subscribe(pkid, filters), _) && pkid == id
            && filters@.len() == list.len() && (0 <= i < list.len() ==> filters@[i].0@ == list[i].0
            && (list[i].1 <= 2 ==> filters@[i].1.number() == list[i].1))),
        fields matches PacketFields::Unsubscribe(id, list) ==> (
        r matches Reading::Packet(Incoming::Unsubscribe(pkid, filters), _) && pkid == id
            && filters@.len() == list.len() && (0 <= i < list.len() ==> filters@[i]@ == list[i])),
{
    if let Reading::Packet(p, _) = r {
        match (p, fields) {
            (Incoming::Subscribe(_, filters), PacketFields::Subscribe(_, list)) => {
                let asked = packet::asked(filters@);
                assert(asked.len() == filters@.len());
                if 0 <= i < list.len() {
                    assert(asked[i] == (filters@[i].0@, filters@[i].1));
                }
            },
            (Incoming::Unsubscribe(_, filters), PacketFields::Unsubscribe(_, list)) => {
                let names = text::texts(filters@);
                assert(names.len() == filters@.len());
                if 0 <= i < list.len() {
                    assert(names[i] == filters@[i]@);
                }
            },
            _ => {},
        }
    }
}


/// Bytes that end before the packet does wait for more, and bytes that are no packet are
/// malformed, for the reason that was found.
pub proof fn law_other_bytes(bytes: &[u8], max_size: usize, r: Reading)
    requires
        call_ensures(packet::read_packet, (bytes, max_size), r),
    ensures
        packet::received(bytes@, max_size) is NeedMore ==> r is NeedMore,
        packet::received(bytes@, max_size) matches Received::Malformed(why) ==> (
        r matches Reading::Malformed(e) && e@ == why),
        packet::received(bytes@, max_size) is Packet ==> r is Packet,
{
}

} // verus!
