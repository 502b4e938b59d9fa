//! MQTT 3.1.1 packets: what a broker reads from its clients and writes to them.

use crate::text;
use bytes::BytesMut;
use mqttbytes::v4::{self, read, Packet};
use mqttbytes::Error;
use vstd::prelude::*;
use vstd::string::*;

verus! {

/// Quality of service.
#[derive(Debug, Clone, Copy, PartialEq, Eq, Structural)]
pub enum QoS {
    AtMostOnce,
    AtLeastOnce,
    ExactlyOnce,
}

impl QoS {
    /// The number on the wire.
    pub open spec fn number(self) -> u8 {
        match self {
            QoS::AtMostOnce => 0,
            QoS::AtLeastOnce => 1,
            QoS::ExactlyOnce => 2,
        }
    }

    pub fn to_number(self) -> (r: u8)
        ensures
            r == self.number(),
    {
        match self {
            QoS::AtMostOnce => 0,
            QoS::AtLeastOnce => 1,
            QoS::ExactlyOnce => 2,
        }
    }

    /// The quality of service that a number stands for; more than two counts as two.
    pub open spec fn of(n: u8) -> QoS {
        if n == 0 {
            QoS::AtMostOnce
        } else if n == 1 {
            QoS::AtLeastOnce
        } else {
            QoS::ExactlyOnce
        }
    }

    pub fn from_number(n: u8) -> (r: QoS)
        ensures
            r == QoS::of(n),
    {
        if n == 0 {
            QoS::AtMostOnce
        } else if n == 1 {
            QoS::AtLeastOnce
        } else {
            QoS::ExactlyOnce
        }
    }
}

/// The message that a broker publishes for a client that is lost.
#[derive(Debug)]
pub struct LastWill {
    pub topic: String,
    pub message: Vec<u8>,
    pub qos: QoS,
    pub retain: bool,
}

/// The username and password of a CONNECT.
#[derive(Debug)]
pub struct Login {
    pub username: String,
    pub password: String,
}

/// A request for a connection.
#[derive(Debug)]
pub struct Connect {
    /// Seconds; 0 = no keep-alive.
    pub keep_alive: u16,
    pub client_id: String,
    pub clean_session: bool,
    pub last_will: Option<LastWill>,
    pub login: Option<Login>,
}

/// A message, in either direction.
#[derive(Debug)]
pub struct Publish {
    pub dup: bool,
    pub qos: QoS,
    pub retain: bool,
    pub topic: String,
    /// 0 for QoS 0.
    pub pkid: u16,
    pub payload: Vec<u8>,
}

/// The answer to a CONNECT.
#[derive(Debug, Clone, Copy, PartialEq, Eq, Structural)]
pub enum ConnectCode {
    Success,
    ServiceUnavailable,
    BadUserNamePassword,
    NotAuthorized,
}

/// The answer to one filter of a SUBSCRIBE.
#[derive(Debug, Clone, Copy, PartialEq, Eq, Structural)]
pub enum SubscribeCode {
    Success(QoS),
    Failure,
}

/// A packet from a client.
#[derive(Debug)]
pub enum Incoming {
    Connect(Connect),
    Publish(Publish),
    /// A PUBREL with its packet id.
    PubRel(u16),
    /// A SUBSCRIBE: packet id, and filters with the quality of service asked for.
    Subscribe(u16, Vec<(String, QoS)>),
    /// An UNSUBSCRIBE: packet id and filters.
    Unsubscribe(u16, Vec<String>),
    PingReq,
    Disconnect,
    /// A PUBACK, PUBREC or PUBCOMP: the acknowledgement of what was sent.
    Ack,
    /// A packet that no client may send, in words.
    Unexpected(String),
}

/// A packet to a client.
#[derive(Debug)]
pub enum Outgoing {
    /// A CONNACK: session present, and the code.
    ConnAck(bool, ConnectCode),
    Publish(Publish),
    PubAck(u16),
    PubRec(u16),
    PubComp(u16),
    SubAck(u16, Vec<SubscribeCode>),
    UnsubAck(u16),
    PingResp,
}

/// Two bytes, most significant first.
pub open spec fn be16(n: int) -> Seq<u8> {
    seq![((n / 256) % 256) as u8, (n % 256) as u8]
}

/// The remaining length of a packet: seven bits per byte, least significant first; the
/// high bit says that more follow.
pub open spec fn varint(n: nat) -> Seq<u8>
    decreases n,
{
    if n < 128 {
        seq![n as u8]
    } else {
        seq![(n % 128 + 128) as u8] + varint(n / 128)
    }
}

/// The most that a remaining length can say.
pub const MAX_REMAINING: usize = 268_435_455;

/// The bytes of an acknowledgement that carries a packet id alone.
pub open spec fn ack_bytes(first: u8, pkid: u16) -> Seq<u8> {
    seq![first, 2u8] + be16(pkid as int)
}

pub open spec fn connect_code(code: ConnectCode) -> u8 {
    match code {
        ConnectCode::Success => 0,
        ConnectCode::ServiceUnavailable => 3,
        ConnectCode::BadUserNamePassword => 4,
        ConnectCode::NotAuthorized => 5,
    }
}

pub open spec fn connack_bytes(session_present: bool, code: ConnectCode) -> Seq<u8> {
    seq![0x20u8, 2u8, if session_present { 1u8 } else { 0u8 }, connect_code(code)]
}

/// Calls `mqttbytes::v4::ConnAck::write`: the four bytes of a CONNACK.
#[verifier::external_body]
fn write_connack(session_present: bool, code: ConnectCode) -> (r: Vec<u8>)
    ensures
        r@ == connack_bytes(session_present, code),
{
    let code = match code {
        ConnectCode::Success => v4::ConnectReturnCode::Success,
        ConnectCode::ServiceUnavailable => v4::ConnectReturnCode::ServiceUnavailable,
        ConnectCode::BadUserNamePassword => v4::ConnectReturnCode::BadUserNamePassword,
        ConnectCode::NotAuthorized => v4::ConnectReturnCode::NotAuthorized,
    };
    let mut out = BytesMut::new();
    v4::ConnAck::new(code, session_present).write(&mut out).unwrap();
    out.to_vec()
}

/// Calls `mqttbytes::v4::PubAck::write`: the four bytes of a PUBACK.
#[verifier::external_body]
fn write_puback(pkid: u16) -> (r: Vec<u8>)
    ensures
        r@ == ack_bytes(0x40, pkid),
{
    let mut out = BytesMut::new();
    v4::PubAck::new(pkid).write(&mut out).unwrap();
    out.to_vec()
}

/// Calls `mqttbytes::v4::PubRec::write`: the four bytes of a PUBREC.
#[verifier::external_body]
fn write_pubrec(pkid: u16) -> (r: Vec<u8>)
    ensures
        r@ == ack_bytes(0x50, pkid),
{
    let mut out = BytesMut::new();
    v4::PubRec::new(pkid).write(&mut out).unwrap();
    out.to_vec()
}

/// Calls `mqttbytes::v4::PubComp::write`: the four bytes of a PUBCOMP.
#[verifier::external_body]
fn write_pubcomp(pkid: u16) -> (r: Vec<u8>)
    ensures
        r@ == ack_bytes(0x70, pkid),
{
    let mut out = BytesMut::new();
    v4::PubComp::new(pkid).write(&mut out).unwrap();
    out.to_vec()
}

/// Calls `mqttbytes::v4::UnsubAck::write`: the four bytes of an UNSUBACK.
#[verifier::external_body]
fn write_unsuback(pkid: u16) -> (r: Vec<u8>)
    ensures
        r@ == ack_bytes(0xB0, pkid),
{
    let mut out = BytesMut::new();
    v4::UnsubAck::new(pkid).write(&mut out).unwrap();
    out.to_vec()
}

/// Calls `mqttbytes::v4::PingResp::write`: the two bytes of a PINGRESP.
#[verifier::external_body]
fn write_pingresp() -> (r: Vec<u8>)
    ensures
        r@ == seq![0xD0u8, 0u8],
{
    let mut out = BytesMut::new();
    v4::PingResp.write(&mut out).unwrap();
    out.to_vec()
}

pub open spec fn subscribe_code(code: SubscribeCode) -> u8 {
    match code {
        SubscribeCode::Success(qos) => qos.number(),
        SubscribeCode::Failure => 0x80,
    }
}

/// The codes of a SUBACK as they are written.
pub open spec fn code_bytes(codes: Seq<SubscribeCode>) -> Seq<u8> {
    codes.map_values(|c: SubscribeCode| subscribe_code(c))
}

/// A SUBACK, for codes given by their numbers.
pub open spec fn suback_bytes(pkid: u16, codes: Seq<u8>) -> Seq<u8> {
    seq![0x90u8] + varint(2 + codes.len()) + be16(pkid as int) + codes
}

/// Calls `mqttbytes::v4::SubAck::write` for codes given by their numbers: it fails only
/// where the length does not fit.
#[verifier::external_body]
fn write_suback(pkid: u16, codes: &Vec<u8>) -> (r: Option<Vec<u8>>)
    requires
        forall|i: int| 0 <= i < codes@.len() ==> #[trigger] codes@[i] <= 2 || codes@[i] == 0x80,
    ensures
        match r {
            Some(b) => 2 + codes@.len() <= MAX_REMAINING && b@ == suback_bytes(pkid, codes@),
            None => 2 + codes@.len() > MAX_REMAINING,
        },
{
    let codes = codes.iter().map(|c| (*c).try_into().unwrap()).collect();
    let mut out = BytesMut::new();
    let written = v4::SubAck::new(pkid, codes).write(&mut out);
    written.ok().map(|_| out.to_vec())
}

/// What a PUBLISH says, as plain values.
pub struct Message {
    pub dup: bool,
    pub qos: QoS,
    pub retain: bool,
    pub topic: Seq<char>,
    pub pkid: u16,
    pub payload: Seq<u8>,
}

impl View for Publish {
    type V = Message;

    open spec fn view(&self) -> Message {
        Message {
            dup: self.dup,
            qos: self.qos,
            retain: self.retain,
            topic: self.topic@,
            pkid: self.pkid,
            payload: self.payload@,
        }
    }
}

/// The bytes after the header of a PUBLISH: topic, packet id (above QoS 0), payload.
pub open spec fn publish_body(m: Message) -> Seq<u8> {
    let topic = vstd::utf8::encode_utf8(m.topic);
    be16(topic.len() as int) + topic + (if m.qos == QoS::AtMostOnce {
        Seq::empty()
    } else {
        be16(m.pkid as int)
    }) + m.payload
}

/// A whole PUBLISH.
pub open spec fn publish_bytes(m: Message) -> Seq<u8> {
    let flags = (if m.retain { 1int } else { 0int }) + 2 * m.qos.number() + (if m.dup {
        8int
    } else {
        0int
    });
    seq![(0x30 + flags) as u8] + varint(publish_body(m).len()) + publish_body(m)
}

/// A PUBLISH that can be written: above QoS 0 it has a packet id, and its length fits.
pub open spec fn publish_fits(m: Message) -> bool {
    (m.qos == QoS::AtMostOnce || m.pkid != 0) && publish_body(m).len() <= MAX_REMAINING
}

/// Calls `mqttbytes::v4::Publish::write`: it fails only for a packet id of 0 above QoS 0
/// and where the length does not fit.
#[verifier::external_body]
fn write_publish(p: &Publish, qos: u8) -> (r: Option<Vec<u8>>)
    requires
        qos == p.qos.number(),
    ensures
        match r {
            Some(b) => publish_fits(p@) && b@ == publish_bytes(p@),
            None => !publish_fits(p@),
        },
{
    let qos = mqttbytes::qos(qos).unwrap();
    let mut m = v4::Publish::new(p.topic.as_str(), qos, p.payload.as_slice());
    m.dup = p.dup;
    m.retain = p.retain;
    m.pkid = p.pkid;
    let mut out = BytesMut::new();
    let written = m.write(&mut out);
    written.ok().map(|_| out.to_vec())
}

/// A packet to a client, as it is written; `None` where it cannot be.
pub open spec fn outgoing_bytes(p: Outgoing) -> Option<Seq<u8>> {
    match p {
        Outgoing::ConnAck(session_present, code) => Some(connack_bytes(session_present, code)),
        Outgoing::Publish(m) => if publish_fits(m@) {
            Some(publish_bytes(m@))
        } else {
            None
        },
        Outgoing::PubAck(pkid) => Some(ack_bytes(0x40, pkid)),
        Outgoing::PubRec(pkid) => Some(ack_bytes(0x50, pkid)),
        Outgoing::PubComp(pkid) => Some(ack_bytes(0x70, pkid)),
        Outgoing::SubAck(pkid, codes) => if 2 + codes@.len() <= MAX_REMAINING {
            Some(suback_bytes(pkid, code_bytes(codes@)))
        } else {
            None
        },
        Outgoing::UnsubAck(pkid) => Some(ack_bytes(0xB0, pkid)),
        Outgoing::PingResp => Some(seq![0xD0u8, 0u8]),
    }
}

/// The bytes of a packet to a client; `None` where it cannot be written.
pub fn encode(packet: &Outgoing) -> (r: Option<Vec<u8>>)
    ensures
        match r {
            Some(b) => outgoing_bytes(*packet) == Some(b@),
            None => outgoing_bytes(*packet) is None,
        },
{
    match packet {
        Outgoing::ConnAck(session_present, code) => Some(write_connack(*session_present, *code)),
        Outgoing::Publish(m) => write_publish(m, m.qos.to_number()),
        Outgoing::PubAck(pkid) => Some(write_puback(*pkid)),
        Outgoing::PubRec(pkid) => Some(write_pubrec(*pkid)),
        Outgoing::PubComp(pkid) => Some(write_pubcomp(*pkid)),
        Outgoing::SubAck(pkid, codes) => {
            let numbers = code_numbers(codes);
            write_suback(*pkid, &numbers)
        },
        Outgoing::UnsubAck(pkid) => Some(write_unsuback(*pkid)),
        Outgoing::PingResp => Some(write_pingresp()),
    }
}

/// The numbers of subscription codes.
fn code_numbers(codes: &Vec<SubscribeCode>) -> (r: Vec<u8>)
    ensures
        r@ == code_bytes(codes@),
        forall|i: int| 0 <= i < r@.len() ==> #[trigger] r@[i] <= 2 || r@[i] == 0x80,
{
    let mut out: Vec<u8> = Vec::new();
    let mut i: usize = 0;
    while i < codes.len()
        invariant
            i <= codes@.len(),
            out@ == code_bytes(codes@.take(i as int)),
            forall|k: int| 0 <= k < out@.len() ==> #[trigger] out@[k] <= 2 || out@[k] == 0x80,
        decreases codes.len() - i,
    {
        let n: u8 = match codes[i] {
            SubscribeCode::Success(qos) => qos.to_number(),
            SubscribeCode::Failure => 0x80,
        };
        out.push(n);
        assert(out@ =~= code_bytes(codes@.take(i + 1)));
        i = i + 1;
    }
    assert(codes@.take(i as int) =~= codes@);
    out
}

/// The kinds of packet that a broker tells apart.
#[derive(Debug, Clone, Copy, PartialEq, Eq, Structural)]
pub enum Kind {
    Connect,
    Publish,
    PubRel,
    Subscribe,
    Unsubscribe,
    PingReq,
    Disconnect,
    Ack,
    Unexpected,
}

/// What stands at the start of received bytes.
pub enum Scan {
    NeedMore,
    Malformed(String),
    /// A packet, and how many bytes are left behind it.
    Packet(Kind, usize),
}

/// What stands at the start of received bytes, as plain values.
pub enum Scanned {
    NeedMore,
    Malformed(Seq<char>),
    Packet(Kind, nat),
}

impl View for Scan {
    type V = Scanned;

    open spec fn view(&self) -> Scanned {
        match self {
            Scan::NeedMore => Scanned::NeedMore,
            Scan::Malformed(e) => Scanned::Malformed(e@),
            Scan::Packet(kind, left) => Scanned::Packet(*kind, *left as nat),
        }
    }
}

/// A will as plain values; the quality of service by its number.
pub struct WillFields {
    pub topic: Seq<char>,
    pub message: Seq<u8>,
    pub qos: u8,
    pub retain: bool,
}

/// A CONNECT as plain values.
pub struct ConnectFields {
    pub keep_alive: u16,
    pub client_id: Seq<char>,
    pub clean_session: bool,
    pub last_will: Option<WillFields>,
    pub login: Option<(Seq<char>, Seq<char>)>,
}

/// A packet as plain values; a quality of service by its number.
pub enum PacketFields {
    Connect(ConnectFields),
    /// Dup, quality of service, retain, topic, packet id, payload.
    Publish(bool, u8, bool, Seq<char>, u16, Seq<u8>),
    /// The packet id.
    PubRel(u16),
    /// The packet id, and filters with the quality of service asked for.
    Subscribe(u16, Seq<(Seq<char>, u8)>),
    /// The packet id and filters.
    Unsubscribe(u16, Seq<Seq<char>>),
    PingReq,
    Disconnect,
    Ack,
    /// The packet in words.
    Unexpected(Seq<char>),
}

/// What stands at the start of received bytes, with the fields of a packet and how many
/// bytes are left behind it.
pub enum Received {
    NeedMore,
    Malformed(Seq<char>),
    Packet(PacketFields, nat),
}

/// What `mqttbytes` reads at the start of received bytes, under a limit on the size.
pub uninterp spec fn received(bytes: Seq<u8>, max_size: usize) -> Received;

/// The kind of a packet.
pub open spec fn kind_of(p: PacketFields) -> Kind {
    match p {
        PacketFields::Connect(_) => Kind::Connect,
        PacketFields::Publish(_, _, _, _, _, _) => Kind::Publish,
        PacketFields::PubRel(_) => Kind::PubRel,
        PacketFields::Subscribe(_, _) => Kind::Subscribe,
        PacketFields::Unsubscribe(_, _) => Kind::Unsubscribe,
        PacketFields::PingReq => Kind::PingReq,
        PacketFields::Disconnect => Kind::Disconnect,
        PacketFields::Ack => Kind::Ack,
        PacketFields::Unexpected(_) => Kind::Unexpected,
    }
}

/// What was received, without the fields of a packet.
pub open spec fn scanned(r: Received) -> Scanned {
    match r {
        Received::NeedMore => Scanned::NeedMore,
        Received::Malformed(e) => Scanned::Malformed(e),
        Received::Packet(p, left) => Scanned::Packet(kind_of(p), left),
    }
}

/// Calls `mqttbytes::v4::read`: whether a packet stands at the start, of which kind and
/// how much follows it, is a function of the bytes and the limit. A packet takes at
/// least one byte.
#[verifier::external_body]
fn scan(bytes: &[u8], max_size: usize) -> (r: Scan)
    ensures
        r@ == scanned(received(bytes@, max_size)),
        r matches Scan::Packet(_, left) ==> left < bytes@.len(),
{
    let mut buf = BytesMut::from(bytes);
    let kind = match read(&mut buf, max_size) {
        Ok(Packet::Connect(_)) => Kind::Connect,
        Ok(Packet::Publish(_)) => Kind::Publish,
        Ok(Packet::PubRel(_)) => Kind::PubRel,
        Ok(Packet::Subscribe(_)) => Kind::Subscribe,
        Ok(Packet::Unsubscribe(_)) => Kind::Unsubscribe,
        Ok(Packet::PingReq) => Kind::PingReq,
        Ok(Packet::Disconnect) => Kind::Disconnect,
        Ok(Packet::PubAck(_) | Packet::PubRec(_) | Packet::PubComp(_)) => Kind::Ack,
        Ok(_) => Kind::Unexpected,
        Err(Error::InsufficientBytes(_)) => return Scan::NeedMore,
        Err(e) => return Scan::Malformed(e.to_string()),
    };
    Scan::Packet(kind, buf.len())
}

/// The parts of a CONNECT: keep-alive, client id, clean session, will, login.
pub type ConnectParts = (
    u16,
    String,
    bool,
    Option<(String, Vec<u8>, u8, bool)>,
    Option<(String, String)>,
);

/// The fields of a received CONNECT.
pub open spec fn connect_in(r: Received) -> Option<ConnectFields> {
    match r {
        Received::Packet(PacketFields::Connect(c), _) => Some(c),
        _ => None,
    }
}

pub open spec fn connect_parts(c: Option<ConnectParts>) -> Option<ConnectFields> {
    match c {
        Some((keep_alive, client_id, clean_session, will, login)) => Some(
            ConnectFields {
                keep_alive,
                client_id: client_id@,
                clean_session,
                last_will: match will {
                    Some((topic, message, qos, retain)) => Some(
                        WillFields { topic: topic@, message: message@, qos, retain },
                    ),
                    None => None,
                },
                login: match login {
                    Some((username, password)) => Some((username@, password@)),
                    None => None,
                },
            },
        ),
        None => None,
    }
}

/// Calls `mqttbytes::v4::read` for a CONNECT: its fields are a function of the bytes and
/// the limit, and there are none where something else stands at the start.
#[verifier::external_body]
fn read_connect(bytes: &[u8], max_size: usize) -> (r: Option<ConnectParts>)
    ensures
        connect_parts(r) == connect_in(received(bytes@, max_size)),
{
    match read(&mut BytesMut::from(bytes), max_size) {
        Ok(Packet::Connect(c)) => {
            let will = c.last_will.map(|w| (w.topic, w.message.to_vec(), w.qos as u8, w.retain));
            let login = c.login.map(|l| (l.username, l.password));
            Some((c.keep_alive, c.client_id, c.clean_session, will, login))
        },
        _ => None,
    }
}

/// The fields of a received PUBLISH.
pub open spec fn publish_in(r: Received) -> Option<(bool, u8, bool, Seq<char>, u16, Seq<u8>)> {
    match r {
        Received::Packet(PacketFields::Publish(dup, qos, retain, topic, pkid, payload), _) => Some(
            (dup, qos, retain, topic, pkid, payload),
        ),
        _ => None,
    }
}

pub open spec fn publish_parts(p: Option<(bool, u8, bool, String, u16, Vec<u8>)>) -> Option<
    (bool, u8, bool, Seq<char>, u16, Seq<u8>),
> {
    match p {
        Some((dup, qos, retain, topic, pkid, payload)) => Some(
            (dup, qos, retain, topic@, pkid, payload@),
        ),
        None => None,
    }
}

/// Calls `mqttbytes::v4::read` for a PUBLISH: its fields are a function of the bytes and
/// the limit, and are there exactly where a PUBLISH stands at the start.
#[verifier::external_body]
fn read_publish(bytes: &[u8], max_size: usize) -> (r: Option<
    (bool, u8, bool, String, u16, Vec<u8>),
>)
    ensures
        publish_parts(r) == publish_in(received(bytes@, max_size)),
{
    match read(&mut BytesMut::from(bytes), max_size) {
        Ok(Packet::Publish(p)) => {
            Some((p.dup, p.qos as u8, p.retain, p.topic, p.pkid, p.payload.to_vec()))
        },
        _ => None,
    }
}

/// The packet id of a received PUBREL.
pub open spec fn pubrel_in(r: Received) -> Option<u16> {
    match r {
        Received::Packet(PacketFields::PubRel(pkid), _) => Some(pkid),
        _ => None,
    }
}

/// Calls `mqttbytes::v4::read` for a PUBREL: its packet id is a function of the bytes and
/// the limit, and is there exactly where a PUBREL stands at the start.
#[verifier::external_body]
fn read_pubrel(bytes: &[u8], max_size: usize) -> (r: Option<u16>)
    ensures
        r == pubrel_in(received(bytes@, max_size)),
{
    match read(&mut BytesMut::from(bytes), max_size) {
        Ok(Packet::PubRel(p)) => Some(p.pkid),
        _ => None,
    }
}

/// The fields of a received SUBSCRIBE.
pub open spec fn subscribe_in(r: Received) -> Option<(u16, Seq<(Seq<char>, u8)>)> {
    match r {
        Received::Packet(PacketFields::Subscribe(pkid, filters), _) => Some((pkid, filters)),
        _ => None,
    }
}

/// Filters with numbers.
pub open spec fn numbered(v: Seq<(String, u8)>) -> Seq<(Seq<char>, u8)> {
    v.map_values(|f: (String, u8)| (f.0@, f.1))
}

pub open spec fn subscribe_parts(s: Option<(u16, Vec<(String, u8)>)>) -> Option<
    (u16, Seq<(Seq<char>, u8)>),
> {
    match s {
        Some((pkid, filters)) => Some((pkid, numbered(filters@))),
        None => None,
    }
}

/// Calls `mqttbytes::v4::read` for a SUBSCRIBE: its fields are a function of the bytes
/// and the limit, and are there exactly where a SUBSCRIBE stands at the start.
#[verifier::external_body]
fn read_subscribe(bytes: &[u8], max_size: usize) -> (r: Option<(u16, Vec<(String, u8)>)>)
    ensures
        subscribe_parts(r) == subscribe_in(received(bytes@, max_size)),
{
    match read(&mut BytesMut::from(bytes), max_size) {
        Ok(Packet::Subscribe(s)) => {
            Some((s.pkid, s.filters.into_iter().map(|f| (f.path, f.qos as u8)).collect()))
        },
        _ => None,
    }
}

/// The fields of a received UNSUBSCRIBE.
pub open spec fn unsubscribe_in(r: Received) -> Option<(u16, Seq<Seq<char>>)> {
    match r {
        Received::Packet(PacketFields::Unsubscribe(pkid, filters), _) => Some((pkid, filters)),
        _ => None,
    }
}

pub open spec fn unsubscribe_parts(u: Option<(u16, Vec<String>)>) -> Option<
    (u16, Seq<Seq<char>>),
> {
    match u {
        Some((pkid, filters)) => Some((pkid, text::texts(filters@))),
        None => None,
    }
}

/// Calls `mqttbytes::v4::read` for an UNSUBSCRIBE: its fields are a function of the bytes
/// and the limit, and are there exactly where an UNSUBSCRIBE stands at the start.
#[verifier::external_body]
fn read_unsubscribe(bytes: &[u8], max_size: usize) -> (r: Option<(u16, Vec<String>)>)
    ensures
        unsubscribe_parts(r) == unsubscribe_in(received(bytes@, max_size)),
{
    match read(&mut BytesMut::from(bytes), max_size) {
        Ok(Packet::Unsubscribe(u)) => Some((u.pkid, u.topics)),
        _ => None,
    }
}

/// A received packet that no client may send, in words.
pub open spec fn unexpected_in(r: Received) -> Option<Seq<char>> {
    match r {
        Received::Packet(PacketFields::Unexpected(words), _) => Some(words),
        _ => None,
    }
}

/// Calls `mqttbytes::v4::read` for a packet that only a broker sends (CONNACK, SUBACK,
/// UNSUBACK, PINGRESP): its debug text is a function of the bytes and the limit, and is
/// there exactly where such a packet stands at the start.
#[verifier::external_body]
fn read_unexpected(bytes: &[u8], max_size: usize) -> (r: Option<String>)
    ensures
        text::opt_string(r) == unexpected_in(received(bytes@, max_size)),
{
    match read(&mut BytesMut::from(bytes), max_size) {
        Ok(
            p @ (Packet::ConnAck(_) | Packet::SubAck(_) | Packet::UnsubAck(_) | Packet::PingResp),
        ) => Some(format!("{p:?}")),
        _ => None,
    }
}

/// A will from its plain values.
pub open spec fn will_is(w: Option<LastWill>, f: Option<WillFields>) -> bool {
    match (w, f) {
        (Some(w), Some(f)) => w.topic@ == f.topic && w.message@ == f.message && w.qos == QoS::of(
            f.qos,
        ) && w.retain == f.retain,
        (None, None) => true,
        _ => false,
    }
}

/// A login as plain text.
pub open spec fn login_fields(login: Option<Login>) -> Option<(Seq<char>, Seq<char>)> {
    match login {
        Some(l) => Some((l.username@, l.password@)),
        None => None,
    }
}

/// A CONNECT with the given fields.
pub open spec fn connect_is(c: Connect, f: ConnectFields) -> bool {
    &&& c.keep_alive == f.keep_alive
    &&& c.client_id@ == f.client_id
    &&& c.clean_session == f.clean_session
    &&& will_is(c.last_will, f.last_will)
    &&& login_fields(c.login) == f.login
}

/// Filters with the quality of service asked for.
pub open spec fn asked(v: Seq<(String, QoS)>) -> Seq<(Seq<char>, QoS)> {
    v.map_values(|f: (String, QoS)| (f.0@, f.1))
}

/// Whether a packet has the given fields.
pub open spec fn incoming_is(p: Incoming, f: PacketFields) -> bool {
    match (p, f) {
        (Incoming::Connect(c), PacketFields::Connect(f)) => connect_is(c, f),
        (
            Incoming::Publish(m),
            PacketFields::Publish(dup, qos, retain, topic, pkid, payload),
        ) => m@ == (Message { dup, qos: QoS::of(qos), retain, topic, pkid, payload }),
        (Incoming::PubRel(pkid), PacketFields::PubRel(id)) => pkid == id,
        (Incoming::Subscribe(pkid, filters), PacketFields::Subscribe(id, list)) => pkid == id
            && asked(filters@) == list.map_values(|f: (Seq<char>, u8)| (f.0, QoS::of(f.1))),
        (Incoming::Unsubscribe(pkid, filters), PacketFields::Unsubscribe(id, list)) => pkid == id
            && text::texts(filters@) == list,
        (Incoming::PingReq, PacketFields::PingReq) => true,
        (Incoming::Disconnect, PacketFields::Disconnect) => true,
        (Incoming::Ack, PacketFields::Ack) => true,
        (Incoming::Unexpected(text), PacketFields::Unexpected(words)) => text@ == words,
        _ => false,
    }
}

/// What came out of reading received bytes.
pub enum Reading {
    /// The bytes end before the packet does.
    NeedMore,
    /// The bytes are no MQTT packet.
    Malformed(String),
    /// A packet, and how many bytes it took.
    Packet(Incoming, usize),
}

/// Reads the packet at the start of received bytes, which may have at most `max_size`
/// bytes after its header.
pub fn read_packet(bytes: &[u8], max_size: usize) -> (r: Reading)
    ensures
        match r {
            Reading::NeedMore => received(bytes@, max_size) == Received::NeedMore,
            Reading::Malformed(e) => received(bytes@, max_size) == Received::Malformed(e@),
            Reading::Packet(p, taken) => received(bytes@, max_size) matches Received::Packet(
                fields,
                left,
            ) && 0 < taken && taken + left == bytes@.len() && incoming_is(p, fields),
        },
{
    let (kind, left) = match scan(bytes, max_size) {
        Scan::NeedMore => {
            return Reading::NeedMore;
        },
        Scan::Malformed(e) => {
            return Reading::Malformed(e);
        },
        Scan::Packet(kind, left) => (kind, left),
    };
    let taken: usize = bytes.len() - left;
    let packet = match kind {
        Kind::Connect => match read_connect(bytes, max_size) {
            Some(c) => Some(Incoming::Connect(connect_from(c))),
            None => None,
        },
        Kind::Publish => match read_publish(bytes, max_size) {
            Some((dup, qos, retain, topic, pkid, payload)) => Some(
                Incoming::Publish(
                    Publish { dup, qos: QoS::from_number(qos), retain, topic, pkid, payload },
                ),
            ),
            None => None,
        },
        Kind::PubRel => match read_pubrel(bytes, max_size) {
            Some(pkid) => Some(Incoming::PubRel(pkid)),
            None => None,
        },
        Kind::Subscribe => match read_subscribe(bytes, max_size) {
            Some((pkid, filters)) => Some(Incoming::Subscribe(pkid, filters_from(filters))),
            None => None,
        },
        Kind::Unsubscribe => match read_unsubscribe(bytes, max_size) {
            Some((pkid, filters)) => Some(Incoming::Unsubscribe(pkid, filters)),
            None => None,
        },
        Kind::PingReq => Some(Incoming::PingReq),
        Kind::Disconnect => Some(Incoming::Disconnect),
        Kind::Ack => Some(Incoming::Ack),
        Kind::Unexpected => match read_unexpected(bytes, max_size) {
            Some(words) => Some(Incoming::Unexpected(words)),
            None => None,
        },
    };
    match packet {
        Some(packet) => Reading::Packet(packet, taken),
        // Does not happen: the same bytes give the same packet again.
        None => Reading::NeedMore,
    }
}

/// A CONNECT out of its parts.
fn connect_from(c: ConnectParts) -> (r: Connect)
    ensures
        connect_is(r, connect_parts(Some(c))->0),
{
    let (keep_alive, client_id, clean_session, will, login) = c;
    let last_will = match will {
        Some((topic, message, qos, retain)) => Some(
            LastWill { topic, message, qos: QoS::from_number(qos), retain },
        ),
        None => None,
    };
    let login = match login {
        Some((username, password)) => Some(Login { username, password }),
        None => None,
    };
    Connect { keep_alive, client_id, clean_session, last_will, login }
}

/// Filters with the quality of service that their numbers stand for.
fn filters_from(filters: Vec<(String, u8)>) -> (r: Vec<(String, QoS)>)
    ensures
        asked(r@) == numbered(filters@).map_values(|f: (Seq<char>, u8)| (f.0, QoS::of(f.1))),
{
    let mut out: Vec<(String, QoS)> = Vec::new();
    let mut i: usize = 0;
    while i < filters.len()
        invariant
            i <= filters@.len(),
            out@.len() == i,
            forall|k: int|
                0 <= k < i ==> (#[trigger] out@[k]).0@ == filters@[k].0@ && out@[k].1 == QoS::of(
                    filters@[k].1,
                ),
        decreases filters.len() - i,
    {
        out.push((filters[i].0.clone(), QoS::from_number(filters[i].1)));
        i = i + 1;
    }
    assert(asked(out@) =~= numbered(filters@).map_values(
        |f: (Seq<char>, u8)| (f.0, QoS::of(f.1)),
    ));
    out
}

} // verus!
