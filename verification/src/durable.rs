//! What a node keeps of its sessions across a restart: the offline queue of each, and
//! its subscriptions with the identity that they belong to.

use crate::auth::{self, Acl};
use crate::codec::{self, has_magic, put_bytes, put_chunk, put_pair, read_chunk, utf8_text};
use crate::packet::{self, QoS};
use crate::session;
use crate::text::{self, hex_text};
use std::collections::VecDeque;
use vstd::prelude::*;
use vstd::string::*;

verus! {

/// What a queue file begins with.
pub const QUEUE_MAGIC: &'static str = "ENTMOOT-Q1\n";

pub open spec fn queue_magic() -> Seq<u8> {
    vstd::utf8::encode_utf8(QUEUE_MAGIC@)
}

/// A whole queue file.
pub open spec fn queue_bytes(queue: Seq<(Seq<char>, Seq<u8>)>) -> Seq<u8> {
    queue_magic() + codec::pairs_bytes(queue)
}

/// Why a queue file cannot be read or written.
#[derive(Debug, Clone, Copy, PartialEq, Eq, Structural)]
pub enum QueueError {
    /// It does not begin as a queue file does.
    NotAQueue,
    /// It ends in the middle of a message.
    Truncated,
    /// A topic is not UTF-8.
    BadTopic,
    /// A topic or payload is longer than a chunk can be.
    TooLarge,
}

/// The messages read out of a queue file after `queue`; of too many the newest stay.
pub open spec fn queue_entries(
    s: Seq<u8>,
    max_queue: nat,
    queue: Seq<(Seq<char>, Seq<u8>)>,
) -> Result<Seq<(Seq<char>, Seq<u8>)>, QueueError>
    decreases s.len(),
{
    if s.len() == 0 {
        Ok(queue)
    } else {
        match codec::first_chunk(s) {
            None => Err(QueueError::Truncated),
            Some((t, after_topic)) => if !vstd::utf8::valid_utf8(t) {
                Err(QueueError::BadTopic)
            } else {
                match codec::first_chunk(after_topic) {
                    None => Err(QueueError::Truncated),
                    Some((payload, rest)) => if rest.len() < s.len() {
                        queue_entries(
                            rest,
                            max_queue,
                            session::queue_put(
                                queue,
                                max_queue,
                                (vstd::utf8::decode_utf8(t), payload),
                            ),
                        )
                    } else {
                        Ok(queue)
                    },
                }
            },
        }
    }
}

/// The queue in a file.
pub open spec fn loaded_queue(data: Seq<u8>, max_queue: nat) -> Result<
    Seq<(Seq<char>, Seq<u8>)>,
    QueueError,
> {
    if max_queue == 0 {
        Ok(Seq::empty())
    } else {
        match codec::after_magic(data, queue_magic()) {
            None => Err(QueueError::NotAQueue),
            Some(body) => queue_entries(body, max_queue, Seq::empty()),
        }
    }
}

/// A queue that was read, as plain values.
pub open spec fn queue_read(r: Result<VecDeque<(String, Vec<u8>)>, QueueError>) -> Result<
    Seq<(Seq<char>, Seq<u8>)>,
    QueueError,
> {
    match r {
        Ok(q) => Ok(session::messages(q@)),
        Err(e) => Err(e),
    }
}

/// Reads a queue file; of more than `max_queue` messages the newest stay.
pub fn load_queue(data: &[u8], max_queue: usize) -> (r: Result<
    VecDeque<(String, Vec<u8>)>,
    QueueError,
>)
    ensures
        queue_read(r) == loaded_queue(data@, max_queue as nat),
        r matches Ok(q) ==> q@.len() <= max_queue,
{
    let mut queue: VecDeque<(String, Vec<u8>)> = VecDeque::new();
    assert(session::messages(queue@) =~= Seq::<(Seq<char>, Seq<u8>)>::empty());
    if max_queue == 0 {
        return Ok(queue);
    }
    let magic = QUEUE_MAGIC.as_bytes();
    if !has_magic(data, magic) {
        return Err(QueueError::NotAQueue);
    }
    let mut at: usize = magic.len();
    while at < data.len()
        invariant
            at <= data@.len(),
            max_queue > 0,
            queue@.len() <= max_queue,
            loaded_queue(data@, max_queue as nat) == queue_entries(
                data@.skip(at as int),
                max_queue as nat,
                session::messages(queue@),
            ),
        decreases data.len() - at,
    {
        let ghost before = session::messages(queue@);
        let (topic_bytes, after_topic) = match read_chunk(data, at) {
            Some(c) => c,
            None => {
                return Err(QueueError::Truncated);
            },
        };
        let topic = match utf8_text(topic_bytes) {
            Some(t) => t,
            None => {
                return Err(QueueError::BadTopic);
            },
        };
        let (payload, next) = match read_chunk(data, after_topic) {
            Some(c) => c,
            None => {
                return Err(QueueError::Truncated);
            },
        };
        let ghost message = (topic@, payload@);
        if queue.len() >= max_queue {
            queue.pop_front();
            assert(session::messages(queue@) =~= before.skip(1));
        }
        let ghost kept = session::messages(queue@);
        queue.push_back((topic, payload));
        assert(session::messages(queue@) =~= kept.push(message));
        assert(session::messages(queue@) =~= session::queue_put(
            before,
            max_queue as nat,
            message,
        ));
        at = next;
    }
    assert(data@.skip(at as int).len() == 0);
    Ok(queue)
}

/// The bytes of a queue file.
pub fn save_queue(queue: &VecDeque<(String, Vec<u8>)>) -> (r: Result<Vec<u8>, QueueError>)
    ensures
        match r {
            Ok(b) => codec::pairs_fit(session::messages(queue@)) && b@ == queue_bytes(
                session::messages(queue@),
            ),
            Err(e) => e == QueueError::TooLarge && !codec::pairs_fit(session::messages(queue@)),
        },
{
    let ghost list = session::messages(queue@);
    let mut out: Vec<u8> = Vec::new();
    put_bytes(&mut out, QUEUE_MAGIC.as_bytes());
    let mut i: usize = 0;
    assert(list.skip(0) =~= list);
    assert(out@ + codec::pairs_bytes(list.skip(0)) =~= queue_bytes(list));
    while i < queue.len()
        invariant
            i <= queue@.len(),
            list == session::messages(queue@),
            out@ + codec::pairs_bytes(list.skip(i as int)) == queue_bytes(list),
            forall|k: int|
                0 <= k < i ==> vstd::utf8::encode_utf8((#[trigger] list[k]).0).len() <= u32::MAX
                    && list[k].1.len() <= u32::MAX,
        decreases queue.len() - i,
    {
        let ghost before = out@;
        let name = queue[i].0.as_str();
        let value = queue[i].1.as_slice();
        assert(list[i as int] == (name@, value@));
        if name.as_bytes().len() as u64 > u32::MAX as u64 || value.len() as u64 > u32::MAX as u64 {
            return Err(QueueError::TooLarge);
        }
        put_pair(&mut out, name, value);
        proof {
            codec::lemma_pairs_step(list, i as int);
            assert(out@ + codec::pairs_bytes(list.skip(i + 1)) =~= before + codec::pairs_bytes(
                list.skip(i as int),
            ));
        }
        i = i + 1;
    }
    assert(list.skip(i as int) =~= Seq::<(Seq<char>, Seq<u8>)>::empty());
    assert(out@ =~= queue_bytes(list));
    Ok(out)
}

proof fn lemma_queue_entries(
    queue: Seq<(Seq<char>, Seq<u8>)>,
    max_queue: nat,
    done: Seq<(Seq<char>, Seq<u8>)>,
)
    requires
        codec::pairs_fit(queue),
        max_queue > 0,
    ensures
        queue_entries(codec::pairs_bytes(queue), max_queue, session::newest(done, max_queue)) == Ok::<
            Seq<(Seq<char>, Seq<u8>)>,
            QueueError,
        >(session::newest(done + queue, max_queue)),
    decreases queue.len(),
{
    if queue.len() > 0 {
        codec::lemma_first_pair(queue);
        let next = done.push(queue[0]);
        assert(session::queue_put(session::newest(done, max_queue), max_queue, queue[0]) =~= session::newest(
            next,
            max_queue,
        ));
        assert(next + queue.skip(1) =~= done + queue);
        assert(queue[0] == (queue[0].0, queue[0].1));
        lemma_queue_entries(queue.skip(1), max_queue, next);
    } else {
        assert(done + queue =~= done);
    }
}

/// A queue read back from its file is the queue that was written; where fewer messages
/// are allowed now, the newest of them in their order.
pub proof fn law_queue_file_round_trip(queue: Seq<(Seq<char>, Seq<u8>)>, max_queue: nat)
    requires
        codec::pairs_fit(queue),
    ensures
        loaded_queue(queue_bytes(queue), max_queue) == Ok::<
            Seq<(Seq<char>, Seq<u8>)>,
            QueueError,
        >(session::newest(queue, max_queue)),
{
    if max_queue == 0 {
        assert(session::newest(queue, 0) =~= Seq::<(Seq<char>, Seq<u8>)>::empty());
    } else {
        let data = queue_bytes(queue);
        assert(data.take(queue_magic().len() as int) =~= queue_magic());
        assert(data.skip(queue_magic().len() as int) =~= codec::pairs_bytes(queue));
        let none = Seq::<(Seq<char>, Seq<u8>)>::empty();
        lemma_queue_entries(queue, max_queue, none);
        assert(none + queue =~= queue);
        assert(session::newest(none, max_queue) =~= none);
    }
}

/// The name of a client's queue file.
pub open spec fn queue_name(client_id: Seq<char>) -> Seq<char> {
    text::hex(vstd::utf8::encode_utf8(client_id)) + ".queue"@
}

pub fn queue_file_name(client_id: &str) -> (r: String)
    ensures
        r@ == queue_name(client_id@),
{
    let mut name = hex_text(client_id.as_bytes());
    name.append(".queue");
    name
}

/// The name of the file with a client's subscriptions.
pub open spec fn subs_name(client_id: Seq<char>) -> Seq<char> {
    text::hex(vstd::utf8::encode_utf8(client_id)) + ".subs"@
}

pub fn subs_file_name(client_id: &str) -> (r: String)
    ensures
        r@ == subs_name(client_id@),
{
    let mut name = hex_text(client_id.as_bytes());
    name.append(".subs");
    name
}

/// No two clients share a file, and the names hold nothing but hexadecimal digits
/// before the ending, whatever the client ids.
pub proof fn law_files_are_distinct(a: Seq<char>, b: Seq<char>)
    ensures
        queue_name(a) == queue_name(b) ==> a == b,
        subs_name(a) == subs_name(b) ==> a == b,
        queue_name(a) != subs_name(b),
        forall|i: int|
            0 <= i < 2 * vstd::utf8::encode_utf8(a).len() ==> text::digits().contains(
                #[trigger] queue_name(a)[i],
            ),
{
    let ha = text::hex(vstd::utf8::encode_utf8(a));
    let hb = text::hex(vstd::utf8::encode_utf8(b));
    if queue_name(a) == queue_name(b) {
        assert(queue_name(a).len() == ha.len() + ".queue"@.len());
        assert(queue_name(b).len() == hb.len() + ".queue"@.len());
        assert(ha =~= queue_name(a).take(ha.len() as int));
        assert(hb =~= queue_name(b).take(hb.len() as int));
        text::law_hex_injective(vstd::utf8::encode_utf8(a), vstd::utf8::encode_utf8(b));
        codec::lemma_utf8_injective(a, b);
    }
    if subs_name(a) == subs_name(b) {
        assert(subs_name(a).len() == ha.len() + ".subs"@.len());
        assert(subs_name(b).len() == hb.len() + ".subs"@.len());
        assert(ha =~= subs_name(a).take(ha.len() as int));
        assert(hb =~= subs_name(b).take(hb.len() as int));
        text::law_hex_injective(vstd::utf8::encode_utf8(a), vstd::utf8::encode_utf8(b));
        codec::lemma_utf8_injective(a, b);
    }
    assert(queue_name(a) != subs_name(b)) by {
        reveal_strlit(".queue");
        reveal_strlit(".subs");
        let q = queue_name(a);
        let s = subs_name(b);
        assert(q[q.len() - 1] == 'e');
        assert(s[s.len() - 1] == 's');
    }
    assert forall|i: int| 0 <= i < 2 * vstd::utf8::encode_utf8(a).len() implies text::digits().contains(
        #[trigger] queue_name(a)[i],
    ) by {
        let byte = vstd::utf8::encode_utf8(a)[i / 2];
        let d = if i % 2 == 0 {
            (byte / 16) as int
        } else {
            (byte % 16) as int
        };
        assert(0 <= d < 16);
        assert(queue_name(a)[i] == text::digits()[d]);
    }
}

/// A session's subscriptions as they are kept across a restart.
pub struct SubsFile {
    pub client_id: String,
    /// The identity that subscribed.
    pub identity: String,
    pub subs: Vec<(String, QoS)>,
}

/// Kept subscriptions as plain values.
pub struct KeptSubs {
    pub client_id: Seq<char>,
    pub identity: Seq<char>,
    pub subs: Seq<(Seq<char>, QoS)>,
}

impl View for SubsFile {
    type V = KeptSubs;

    open spec fn view(&self) -> KeptSubs {
        KeptSubs {
            client_id: self.client_id@,
            identity: self.identity@,
            subs: packet::asked(self.subs@),
        }
    }
}

/// What a file with subscriptions begins with.
pub const SUBS_MAGIC: &'static str = "ENTMOOT-S1\n";

pub open spec fn subs_magic() -> Seq<u8> {
    vstd::utf8::encode_utf8(SUBS_MAGIC@)
}

/// Subscriptions as pairs of the filter and the number of the quality of service.
pub open spec fn sub_pairs(subs: Seq<(Seq<char>, QoS)>) -> Seq<(Seq<char>, Seq<u8>)> {
    subs.map_values(|s: (Seq<char>, QoS)| (s.0, seq![s.1.number()]))
}

/// A whole file with subscriptions: client id, identity, and the subscriptions.
pub open spec fn subs_bytes(f: KeptSubs) -> Seq<u8> {
    subs_magic() + codec::chunk(vstd::utf8::encode_utf8(f.client_id)) + codec::chunk(
        vstd::utf8::encode_utf8(f.identity),
    ) + codec::pairs_bytes(sub_pairs(f.subs))
}

/// The subscriptions in bytes; `None` where they are damaged.
pub open spec fn subs_entries(s: Seq<u8>, done: Seq<(Seq<char>, QoS)>) -> Option<
    Seq<(Seq<char>, QoS)>,
>
    decreases s.len(),
{
    if s.len() == 0 {
        Some(done)
    } else {
        match codec::first_pair(s) {
            Some((t, v, rest)) => if vstd::utf8::valid_utf8(t) && v.len() == 1 && v[0] <= 2
                && rest.len() < s.len() {
                subs_entries(rest, done.push((vstd::utf8::decode_utf8(t), QoS::of(v[0]))))
            } else {
                None
            },
            None => None,
        }
    }
}

/// The contents of a file with subscriptions; `None` where it is damaged.
pub open spec fn loaded_subs(data: Seq<u8>) -> Option<KeptSubs> {
    match codec::after_magic(data, subs_magic()) {
        None => None,
        Some(body) => match codec::first_pair(body) {
            None => None,
            Some((client_id, identity, rest)) => if !vstd::utf8::valid_utf8(client_id)
                || !vstd::utf8::valid_utf8(identity) {
                None
            } else {
                match subs_entries(rest, Seq::empty()) {
                    None => None,
                    Some(subs) => Some(
                        KeptSubs {
                            client_id: vstd::utf8::decode_utf8(client_id),
                            identity: vstd::utf8::decode_utf8(identity),
                            subs,
                        },
                    ),
                }
            },
        },
    }
}

/// The bytes of a file with subscriptions.
pub fn save_subs(f: &SubsFile) -> (r: Vec<u8>)
    ensures
        r@ == subs_bytes(f@),
{
    let ghost list = sub_pairs(f@.subs);
    let mut out: Vec<u8> = Vec::new();
    put_bytes(&mut out, SUBS_MAGIC.as_bytes());
    put_chunk(&mut out, f.client_id.as_str().as_bytes());
    put_chunk(&mut out, f.identity.as_str().as_bytes());
    let mut i: usize = 0;
    assert(list.skip(0) =~= list);
    assert(out@ + codec::pairs_bytes(list.skip(0)) =~= subs_bytes(f@));
    while i < f.subs.len()
        invariant
            i <= f.subs@.len(),
            list == sub_pairs(f@.subs),
            out@ + codec::pairs_bytes(list.skip(i as int)) == subs_bytes(f@),
        decreases f.subs.len() - i,
    {
        let ghost before = out@;
        let mut value: Vec<u8> = Vec::new();
        value.push(f.subs[i].1.to_number());
        assert(value@ =~= seq![f.subs@[i as int].1.number()]);
        assert(list[i as int] == (f.subs@[i as int].0@, value@));
        put_pair(&mut out, f.subs[i].0.as_str(), value.as_slice());
        proof {
            codec::lemma_pairs_step(list, i as int);
            assert(out@ + codec::pairs_bytes(list.skip(i + 1)) =~= before + codec::pairs_bytes(
                list.skip(i as int),
            ));
        }
        i = i + 1;
    }
    assert(list.skip(i as int) =~= Seq::<(Seq<char>, Seq<u8>)>::empty());
    assert(out@ =~= subs_bytes(f@));
    out
}

/// Reads a file with subscriptions; `None` where it is damaged.
pub fn load_subs(data: &[u8]) -> (r: Option<SubsFile>)
    ensures
        match r {
            Some(f) => loaded_subs(data@) == Some(f@),
            None => loaded_subs(data@) is None,
        },
{
    let magic = SUBS_MAGIC.as_bytes();
    if !has_magic(data, magic) {
        return None;
    }
    let (client_bytes, after_client) = match read_chunk(data, magic.len()) {
        Some(c) => c,
        None => {
            return None;
        },
    };
    let (identity_bytes, after_identity) = match read_chunk(data, after_client) {
        Some(c) => c,
        None => {
            return None;
        },
    };
    let client_id = match utf8_text(client_bytes) {
        Some(t) => t,
        None => {
            return None;
        },
    };
    let identity = match utf8_text(identity_bytes) {
        Some(t) => t,
        None => {
            return None;
        },
    };
    let mut subs: Vec<(String, QoS)> = Vec::new();
    let mut at: usize = after_identity;
    let ghost first = data@.skip(at as int);
    assert(packet::asked(subs@) =~= Seq::<(Seq<char>, QoS)>::empty());
    while at < data.len()
        invariant
            at <= data@.len(),
            subs_entries(first, Seq::empty()) == subs_entries(
                data@.skip(at as int),
                packet::asked(subs@),
            ),
            loaded_subs(data@) == (match subs_entries(first, Seq::empty()) {
                None => None,
                Some(subs) => Some(
                    KeptSubs { client_id: client_id@, identity: identity@, subs },
                ),
            }),
        decreases data.len() - at,
    {
        let ghost before = packet::asked(subs@);
        let (filter_bytes, after_filter) = match read_chunk(data, at) {
            Some(c) => c,
            None => {
                return None;
            },
        };
        let (value, next) = match read_chunk(data, after_filter) {
            Some(c) => c,
            None => {
                return None;
            },
        };
        let filter = match utf8_text(filter_bytes) {
            Some(t) => t,
            None => {
                return None;
            },
        };
        if value.len() != 1 || value[0] > 2 {
            return None;
        }
        let ghost sub = (filter@, QoS::of(value@[0]));
        subs.push((filter, QoS::from_number(value[0])));
        assert(packet::asked(subs@) =~= before.push(sub));
        at = next;
    }
    assert(data@.skip(at as int).len() == 0);
    Some(SubsFile { client_id, identity, subs })
}

proof fn lemma_subs_entries(subs: Seq<(Seq<char>, QoS)>, done: Seq<(Seq<char>, QoS)>)
    requires
        codec::pairs_fit(sub_pairs(subs)),
    ensures
        subs_entries(codec::pairs_bytes(sub_pairs(subs)), done) == Some(done + subs),
    decreases subs.len(),
{
    if subs.len() > 0 {
        let list = sub_pairs(subs);
        codec::lemma_first_pair(list);
        assert(list.skip(1) =~= sub_pairs(subs.skip(1)));
        assert(list[0] == (subs[0].0, seq![subs[0].1.number()]));
        assert(QoS::of(subs[0].1.number()) == subs[0].1);
        assert(done.push(subs[0]) + subs.skip(1) =~= done + subs);
        lemma_subs_entries(subs.skip(1), done.push(subs[0]));
    } else {
        assert(done + subs =~= done);
    }
}

/// The subscriptions read back from their file are those that were written.
pub proof fn law_subs_file_round_trip(f: KeptSubs)
    requires
        vstd::utf8::encode_utf8(f.client_id).len() <= u32::MAX,
        vstd::utf8::encode_utf8(f.identity).len() <= u32::MAX,
        codec::pairs_fit(sub_pairs(f.subs)),
    ensures
        loaded_subs(subs_bytes(f)) == Some(f),
{
    let data = subs_bytes(f);
    let client = vstd::utf8::encode_utf8(f.client_id);
    let identity = vstd::utf8::encode_utf8(f.identity);
    let rest = codec::pairs_bytes(sub_pairs(f.subs));
    let body = codec::chunk(client) + (codec::chunk(identity) + rest);
    assert(data =~= subs_magic() + body);
    assert(data.take(subs_magic().len() as int) =~= subs_magic());
    assert(data.skip(subs_magic().len() as int) =~= body);
    codec::law_chunk_round_trip(client, codec::chunk(identity) + rest);
    codec::law_chunk_round_trip(identity, rest);
    vstd::utf8::encode_utf8_valid_utf8(f.client_id);
    vstd::utf8::encode_utf8_decode_utf8(f.client_id);
    vstd::utf8::encode_utf8_valid_utf8(f.identity);
    vstd::utf8::encode_utf8_decode_utf8(f.identity);
    lemma_subs_entries(f.subs, Seq::empty());
    assert(Seq::<(Seq<char>, QoS)>::empty() + f.subs =~= f.subs);
}

/// The kept subscriptions that the rules of today still grant, in their order.
pub open spec fn still_granted(
    acl: (Seq<crate::config::AclRule>, bool),
    identity: Seq<char>,
    subs: Seq<(Seq<char>, QoS)>,
) -> Seq<(Seq<char>, QoS)>
    decreases subs.len(),
{
    if subs.len() == 0 {
        Seq::empty()
    } else {
        let before = still_granted(acl, identity, subs.drop_last());
        if auth::subscribe_allowed(acl, identity, subs.last().0) {
            before.push(subs.last())
        } else {
            before
        }
    }
}

/// Picks the kept subscriptions that are to be reinstated after a restart.
pub fn reinstated(acl: &Acl, f: &SubsFile) -> (r: Vec<(String, QoS)>)
    ensures
        packet::asked(r@) == still_granted(acl@, f@.identity, f@.subs),
{
    let mut out: Vec<(String, QoS)> = Vec::new();
    let mut i: usize = 0;
    assert(packet::asked(out@) =~= still_granted(acl@, f@.identity, f@.subs.take(0)));
    while i < f.subs.len()
        invariant
            i <= f.subs@.len(),
            packet::asked(out@) == still_granted(acl@, f@.identity, f@.subs.take(i as int)),
        decreases f.subs.len() - i,
    {
        let ghost before = packet::asked(out@);
        assert(f@.subs.take(i + 1).drop_last() =~= f@.subs.take(i as int));
        assert(f@.subs[i as int] == (f.subs@[i as int].0@, f.subs@[i as int].1));
        if acl.may_subscribe(f.identity.as_str(), f.subs[i].0.as_str()) {
            out.push((f.subs[i].0.clone(), f.subs[i].1));
            assert(packet::asked(out@) =~= before.push(f@.subs[i as int]));
        }
        i = i + 1;
    }
    assert(f@.subs.take(i as int) =~= f@.subs);
    out
}

/// A grant that was removed is not reinstated from old files: every reinstated
/// subscription was kept and is granted today.
pub proof fn law_revoked_grants_stay_revoked(
    acl: (Seq<crate::config::AclRule>, bool),
    identity: Seq<char>,
    subs: Seq<(Seq<char>, QoS)>,
    i: int,
)
    requires
        0 <= i < still_granted(acl, identity, subs).len(),
    ensures
        auth::subscribe_allowed(acl, identity, still_granted(acl, identity, subs)[i].0),
        subs.contains(still_granted(acl, identity, subs)[i]),
    decreases subs.len(),
{
    let before = still_granted(acl, identity, subs.drop_last());
    if i < before.len() {
        law_revoked_grants_stay_revoked(acl, identity, subs.drop_last(), i);
        let j = choose|j: int| 0 <= j < subs.drop_last().len() && subs.drop_last()[j] == before[i];
        assert(subs[j] == before[i]);
    } else {
        assert(subs[subs.len() - 1] == subs.last());
    }
}

/// A kept subscription that is still granted is reinstated.
pub proof fn law_granted_subscriptions_come_back(
    acl: (Seq<crate::config::AclRule>, bool),
    identity: Seq<char>,
    subs: Seq<(Seq<char>, QoS)>,
    i: int,
)
    requires
        0 <= i < subs.len(),
        auth::subscribe_allowed(acl, identity, subs[i].0),
    ensures
        still_granted(acl, identity, subs).contains(subs[i]),
    decreases subs.len(),
{
    let all = still_granted(acl, identity, subs);
    let before = still_granted(acl, identity, subs.drop_last());
    if i < subs.len() - 1 {
        law_granted_subscriptions_come_back(acl, identity, subs.drop_last(), i);
        let j = choose|j: int| 0 <= j < before.len() && before[j] == subs[i];
        assert(all[j] == subs[i]);
    } else {
        assert(all[all.len() - 1] == subs[i]);
    }
}

} // verus!
