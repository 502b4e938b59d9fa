//! Laws of what a node keeps: retained messages and their replicas, the files of sessions
//! and of snapshots, and the rules for data validation and staleness. All are said of what
//! the functions return and leave.

use crate::auth::{self, Acl};
use crate::codec;
use crate::config::{AclRule, SchemaRule};
use crate::durable::{self, QueueError, SubsFile};
use crate::packet::{self, QoS};
use crate::retained::{self, RetainedStore, Sample, SnapshotError};
use crate::schema::{self, SchemaPolicy, Verdict};
use crate::session;
use crate::staleness::{self, StalenessPolicy};
use crate::text;
use crate::topic;
use crate::topic_laws;
use std::collections::VecDeque;
use std::sync::Arc;
use vstd::prelude::*;
use vstd::string::*;

verus! {

/// An envelope is the time in eight bytes, most significant first, and then the payload.
/// Reading one gives both back; what is too short for a time is all payload, of time 0.
pub proof fn law_envelopes(
    payload: &[u8],
    written_at: u64,
    r: Vec<u8>,
    stored: &[u8],
    read: (Vec<u8>, u64),
    i: int,
)
    requires
        call_ensures(retained::encode_envelope, (payload, written_at), r),
        call_ensures(retained::decode_envelope, (stored,), read),
        0 <= i < payload@.len(),
    ensures
        r@.len() == 8 + payload@.len(),
        r@[8 + i] == payload@[i],
        written_at == ((((((r@[0] * 256 + r@[1]) * 256 + r@[2]) * 256 + r@[3]) * 256 + r@[4]) * 256
            + r@[5]) * 256 + r@[6]) * 256 + r@[7],
        stored@ == r@ ==> read.0@ == payload@ && read.1 == written_at,
        stored@.len() < 8 ==> read.0@ == stored@ && read.1 == 0,
        stored@.len() >= 8 ==> read.0@ == stored@.skip(8),
{
    let high = (written_at / 4294967296) as nat;
    let low = (written_at % 4294967296) as nat;
    codec::lemma_be32(high);
    codec::lemma_be32(low);
    assert(r@.take(4) =~= codec::be32(high));
    assert(r@.subrange(4, 8) =~= codec::be32(low));
    assert(r@[4] == r@.subrange(4, 8)[0] && r@[5] == r@.subrange(4, 8)[1] && r@[6]
        == r@.subrange(4, 8)[2] && r@[7] == r@.subrange(4, 8)[3]);
    assert(r@[0] == r@.take(4)[0] && r@[1] == r@.take(4)[1] && r@[2] == r@.take(4)[2] && r@[3]
        == r@.take(4)[3]);
    assert(written_at == high * 4294967296 + low);
    retained::law_envelope_round_trip(payload@, written_at);
}

/// What is stored for a topic is what was stored last, and other topics are left alone;
/// what is removed is gone. Both are changes that the next snapshot has to hold.
pub proof fn law_storing_and_removing(
    store: &mut RetainedStore,
    name: String,
    value: Vec<u8>,
    later: &mut RetainedStore,
    gone: &str,
    other: Seq<char>,
)
    requires
        call_ensures(RetainedStore::insert, (store, name, value), ()),
        call_ensures(RetainedStore::remove, (later, gone), ()),
        other != name@,
        other != gone@,
    ensures
        final(store)@.contains_pair(name@, value@),
        final(store)@.dom().contains(other) == old(store)@.dom().contains(other),
        final(store)@[other] == old(store)@[other],
        final(store).dirty(),
        !final(later)@.dom().contains(gone@),
        final(later)@.dom().contains(other) == old(later)@.dom().contains(other),
        old(later)@.dom().contains(other) ==> final(later)@[other] == old(later)@[other],
        final(later).dirty(),
{
}

/// A scan finds a topic exactly where it is stored and the filter matches it, once, with
/// its payload and time; an answer by way of the cache is the same.
pub proof fn law_what_a_scan_finds(
    store: &mut RetainedStore,
    filter: &str,
    r: Vec<(String, Vec<u8>, u64)>,
    later: &mut RetainedStore,
    shared: Arc<Vec<(String, Vec<u8>, u64)>>,
    name: Seq<char>,
    payload: Seq<u8>,
    written_at: u64,
)
    requires
        call_ensures(RetainedStore::matching, (store, filter), r),
        call_ensures(RetainedStore::matching_cached, (later, filter), shared),
        old(later)@ == old(store)@,
    ensures
        ({
            let stored = old(store)@.dom().contains(name) && topic::filter_matches(filter@, name)
                && retained::opened(old(store)@[name]) == (payload, written_at);
            &&& stored <==> exists|i: int|
                0 <= i < r@.len() && (#[trigger] r@[i]).0@ == name && r@[i].1@ == payload && r@[i].2
                    == written_at
            &&& stored <==> exists|i: int|
                0 <= i < shared@.len() && (#[trigger] shared@[i]).0@ == name && shared@[i].1@
                    == payload && shared@[i].2 == written_at
        }),
        forall|i: int, j: int|
            0 <= i < j < r@.len() ==> (#[trigger] r@[i]).0@ != (#[trigger] r@[j]).0@,
        final(store)@ == old(store)@,
        final(later)@ == old(later)@,
{
    let found = retained::found_items(r@);
    let others = retained::found_items(shared@);
    assert forall|i: int| 0 <= i < r@.len() implies #[trigger] found[i] == (
        r@[i].0@,
        r@[i].1@,
        r@[i].2,
    ) by {}
    assert forall|i: int| 0 <= i < shared@.len() implies #[trigger] others[i] == (
        shared@[i].0@,
        shared@[i].1@,
        shared@[i].2,
    ) by {}
    if old(store)@.dom().contains(name) && topic::filter_matches(filter@, name)
        && retained::opened(old(store)@[name]) == (payload, written_at) {
        let i = choose|i: int| 0 <= i < found.len() && (#[trigger] found[i]).0 == name;
        assert(r@[i].0@ == name);
        let j = choose|j: int| 0 <= j < others.len() && (#[trigger] others[j]).0 == name;
        assert(shared@[j].0@ == name);
    }
    if exists|i: int|
        0 <= i < r@.len() && (#[trigger] r@[i]).0@ == name && r@[i].1@ == payload && r@[i].2
            == written_at {
        let i = choose|i: int|
            0 <= i < r@.len() && (#[trigger] r@[i]).0@ == name && r@[i].1@ == payload && r@[i].2
                == written_at;
        assert(found[i].0 == name);
    }
    if exists|i: int|
        0 <= i < shared@.len() && (#[trigger] shared@[i]).0@ == name && shared@[i].1@ == payload
            && shared@[i].2 == written_at {
        let i = choose|i: int|
            0 <= i < shared@.len() && (#[trigger] shared@[i]).0@ == name && shared@[i].1@ == payload
                && shared@[i].2 == written_at;
        assert(others[i].0 == name);
    }
    assert forall|i: int, j: int| 0 <= i < j < r@.len() implies (#[trigger] r@[i]).0@ != (
    #[trigger] r@[j]).0@ by {
        assert(found[i].0 != found[j].0);
    }
}

/// A change on the retained key of a topic is taken in for that topic and no other, and
/// leaves something to be saved; a change on any other key is not taken in.
pub proof fn law_replicas_take_changes_in(
    store: &mut RetainedStore,
    key: &str,
    scope: &str,
    sample: Sample,
    r: bool,
    name: &str,
    own: String,
    other: Seq<char>,
)
    requires
        call_ensures(RetainedStore::apply_sample, (store, key, scope, sample), r),
        call_ensures(topic::retained_keyexpr, (name, scope), own),
        other != name@,
    ensures
        key@ == own@ ==> {
            &&& r
            &&& sample matches Sample::Put(value) ==> final(store)@.contains_pair(name@, value@)
            &&& sample is Delete ==> !final(store)@.dom().contains(name@)
            &&& final(store)@.dom().contains(other) == old(store)@.dom().contains(other)
            &&& old(store)@.dom().contains(other) ==> final(store)@[other] == old(store)@[other]
            &&& final(store).dirty()
        },
        !r ==> final(store)@ == old(store)@ && final(store).dirty() == old(store).dirty(),
{
    topic_laws::law_retained_round_trip(name@, scope@);
}

/// A node answers a late joiner with every message that it retains, each under the
/// retained key of its topic, and with nothing else.
pub proof fn law_replies_hold_the_store(
    store: &RetainedStore,
    scope: &str,
    r: Vec<(String, Vec<u8>)>,
    name: Seq<char>,
    value: Seq<u8>,
)
    requires
        call_ensures(RetainedStore::replies, (store, scope), r),
    ensures
        store@.contains_pair(name, value) <==> exists|i: int|
            0 <= i < r@.len() && topic::retained_topic((#[trigger] r@[i]).0@, scope@) == Some(name)
                && r@[i].1@ == value,
{
    let list = choose|list: Seq<(Seq<char>, Seq<u8>)>|
        retained::lists(store@, list) && codec::pairs(r@) == #[trigger] retained::keyed(
            list,
            scope@,
        );
    let keyed = retained::keyed(list, scope@);
    assert(codec::pairs(r@).len() == r@.len());
    assert(keyed.len() == list.len());
    assert forall|i: int| 0 <= i < r@.len() implies topic::retained_topic(
        (#[trigger] r@[i]).0@,
        scope@,
    ) == Some(list[i].0) && r@[i].1@ == list[i].1 by {
        assert(codec::pairs(r@)[i] == (r@[i].0@, r@[i].1@));
        assert(keyed[i] == (
            topic::internal_key(topic::RETAINED_CHUNK@, list[i].0, scope@),
            list[i].1,
        ));
        topic_laws::law_retained_round_trip(list[i].0, scope@);
    }
    if store@.contains_pair(name, value) {
        let i = choose|i: int| 0 <= i < list.len() && (#[trigger] list[i]).0 == name;
        assert(store@.contains_pair(list[i].0, list[i].1));
        assert(topic::retained_topic(r@[i].0@, scope@) == Some(name));
    }
    if exists|i: int|
        0 <= i < r@.len() && topic::retained_topic((#[trigger] r@[i]).0@, scope@) == Some(name)
            && r@[i].1@ == value {
        let i = choose|i: int|
            0 <= i < r@.len() && topic::retained_topic((#[trigger] r@[i]).0@, scope@) == Some(name)
                && r@[i].1@ == value;
        assert(store@.contains_pair(list[i].0, list[i].1));
    }
}

/// A snapshot that was saved and is read again gives every topic that was stored its
/// value, keeps what else there is, and tells how many entries it held; neither makes a
/// change that has to be saved.
pub proof fn law_snapshots_are_read_back(
    store: &RetainedStore,
    bytes: Vec<u8>,
    into: &mut RetainedStore,
    data: &[u8],
    r: Result<usize, SnapshotError>,
)
    requires
        call_ensures(RetainedStore::save_snapshot, (store,), bytes),
        call_ensures(RetainedStore::load_snapshot, (into, data), r),
        data@ == bytes@,
        store@.dom().finite(),
        forall|t: Seq<char>| #[trigger]
            store@.dom().contains(t) ==> vstd::utf8::encode_utf8(t).len() <= u32::MAX
                && store@[t].len() <= u32::MAX,
    ensures
        r is Ok,
        final(into)@ == old(into)@.union_prefer_right(store@),
        final(into).dirty() == old(into).dirty(),
{
    let list = choose|list: Seq<(Seq<char>, Seq<u8>)>|
        retained::lists(store@, list) && bytes@ == #[trigger] retained::snapshot_bytes(list);
    assert forall|i: int| 0 <= i < list.len() implies vstd::utf8::encode_utf8(
        (#[trigger] list[i]).0,
    ).len() <= u32::MAX && list[i].1.len() <= u32::MAX by {
        assert(store@.contains_pair(list[i].0, list[i].1));
        assert(store@.dom().contains(list[i].0));
    }
    retained::law_snapshot_round_trip(old(into)@, store@, list);
}

/// What does not begin as a snapshot is refused and changes nothing. A snapshot that ends
/// early is refused too, but the entries before the damage are taken in.
pub proof fn law_damaged_snapshots(
    store: &mut RetainedStore,
    data: &[u8],
    r: Result<usize, SnapshotError>,
    list: Seq<(Seq<char>, Seq<u8>)>,
    tail: Seq<u8>,
)
    requires
        call_ensures(RetainedStore::load_snapshot, (store, data), r),
        codec::pairs_fit(list),
    ensures
        ({
            let magic = vstd::utf8::encode_utf8("ENTMOOT-RET1\n"@);
            &&& !(magic.len() <= data@.len() && data@.take(magic.len() as int) == magic) ==> r
                == Err::<usize, SnapshotError>(SnapshotError::NotASnapshot) && final(store)@ == old(
                store,
            )@
            &&& data@ == magic + codec::pairs_bytes(list) + tail && 0 < tail.len() < 4 ==> r
                == Err::<usize, SnapshotError>(SnapshotError::Truncated) && final(store)@
                == retained::with_entries(old(store)@, list)
        }),
{
    let magic = retained::snapshot_magic();
    let body = codec::pairs_bytes(list) + tail;
    if data@ == magic + codec::pairs_bytes(list) + tail {
        assert(data@ =~= magic + body);
        assert(data@.take(magic.len() as int) =~= magic);
        assert(data@.skip(magic.len() as int) =~= body);
        lemma_load_tail(old(store)@, list, tail, 0);
    }
}

/// The first entry of a list is read back, whatever follows the list.
proof fn lemma_first_entry(list: Seq<(Seq<char>, Seq<u8>)>, tail: Seq<u8>)
    requires
        list.len() > 0,
        codec::pairs_fit(list),
    ensures
        ({
            let s = codec::pairs_bytes(list) + tail;
            let t = vstd::utf8::encode_utf8(list[0].0);
            let rest = codec::pairs_bytes(list.skip(1)) + tail;
            &&& codec::first_chunk(s) == Some((t, codec::chunk(list[0].1) + rest))
            &&& codec::first_chunk(codec::chunk(list[0].1) + rest) == Some((list[0].1, rest))
            &&& vstd::utf8::valid_utf8(t)
            &&& vstd::utf8::decode_utf8(t) == list[0].0
            &&& rest.len() < s.len()
            &&& codec::pairs_fit(list.skip(1))
        }),
{
    let s = codec::pairs_bytes(list) + tail;
    let t = vstd::utf8::encode_utf8(list[0].0);
    let value = list[0].1;
    let rest = codec::pairs_bytes(list.skip(1)) + tail;
    codec::lemma_first_pair(list);
    assert(t.len() <= u32::MAX && value.len() <= u32::MAX);
    assert(s =~= codec::chunk(t) + (codec::chunk(value) + rest));
    codec::law_chunk_round_trip(t, codec::chunk(value) + rest);
    codec::law_chunk_round_trip(value, rest);
}

proof fn lemma_load_tail(
    store: Map<Seq<char>, Seq<u8>>,
    list: Seq<(Seq<char>, Seq<u8>)>,
    tail: Seq<u8>,
    count: nat,
)
    requires
        codec::pairs_fit(list),
    ensures
        retained::loaded_entries(store, codec::pairs_bytes(list) + tail, count)
            == retained::loaded_entries(
            retained::with_entries(store, list),
            tail,
            (count + list.len()) as nat,
        ),
    decreases list.len(),
{
    if list.len() == 0 {
        assert(codec::pairs_bytes(list) + tail =~= tail);
    } else {
        let next = store.insert(list[0].0, list[0].1);
        lemma_load_one(store, list, tail, count);
        lemma_load_tail(next, list.skip(1), tail, count + 1);
        assert(retained::with_entries(store, list) == retained::with_entries(next, list.skip(1)));
    }
}

proof fn lemma_load_one(
    store: Map<Seq<char>, Seq<u8>>,
    list: Seq<(Seq<char>, Seq<u8>)>,
    tail: Seq<u8>,
    count: nat,
)
    requires
        list.len() > 0,
        codec::pairs_fit(list),
    ensures
        codec::pairs_fit(list.skip(1)),
        retained::loaded_entries(store, codec::pairs_bytes(list) + tail, count)
            == retained::loaded_entries(
            store.insert(list[0].0, list[0].1),
            codec::pairs_bytes(list.skip(1)) + tail,
            count + 1,
        ),
{
    lemma_first_entry(list, tail);
}

/// A chunk in a file is its length in four bytes, most significant first, and then its
/// bytes.
pub proof fn law_chunks(out: &mut Vec<u8>, bytes: &[u8], i: int)
    requires
        call_ensures(codec::put_chunk, (out, bytes), ()),
        bytes@.len() <= u32::MAX,
        0 <= i < bytes@.len(),
    ensures
        ({
            let n = old(out)@.len() as int;
            let r = final(out)@;
            &&& r.len() == n + 4 + bytes@.len()
            &&& r.take(n) =~= old(out)@
            &&& bytes@.len() == ((r[n] * 256 + r[n + 1]) * 256 + r[n + 2]) * 256 + r[n + 3]
            &&& r[n + 4 + i] == bytes@[i]
        }),
{
    let n = old(out)@.len() as int;
    let r = final(out)@;
    codec::lemma_be32(bytes@.len());
    assert(bytes@.len() % 4294967296 == bytes@.len());
    assert(r.subrange(n, n + 4) =~= codec::be32(bytes@.len()));
    assert(r[n] == r.subrange(n, n + 4)[0] && r[n + 1] == r.subrange(n, n + 4)[1] && r[n + 2]
        == r.subrange(n, n + 4)[2] && r[n + 3] == r.subrange(n, n + 4)[3]);
}

/// A queue that was saved is read again as it was, or as its newest messages where fewer
/// are allowed now; it can be saved exactly where every topic and payload fits a chunk.
pub proof fn law_queues_are_read_back(
    queue: &VecDeque<(String, Vec<u8>)>,
    saved: Result<Vec<u8>, QueueError>,
    data: &[u8],
    max_queue: usize,
    r: Result<VecDeque<(String, Vec<u8>)>, QueueError>,
)
    requires
        call_ensures(durable::save_queue, (queue,), saved),
        call_ensures(durable::load_queue, (data, max_queue), r),
        saved matches Ok(bytes) ==> data@ == bytes@,
    ensures
        saved is Ok <==> codec::pairs_fit(session::messages(queue@)),
        saved matches Err(e) ==> e is TooLarge,
        saved is Ok && queue@.len() <= max_queue ==> (r matches Ok(q) && session::messages(q@)
            == session::messages(queue@)),
        saved is Ok && queue@.len() > max_queue ==> (r matches Ok(q) && session::messages(q@)
            == session::messages(queue@).skip(queue@.len() - max_queue)),
{
    let list = session::messages(queue@);
    assert(list.len() == queue@.len());
    if saved is Ok {
        durable::law_queue_file_round_trip(list, max_queue as nat);
    }
}

/// What does not begin as a queue file is refused, unless no queue is allowed at all: then
/// every file counts as an empty queue.
pub proof fn law_foreign_queue_files(
    data: &[u8],
    max_queue: usize,
    r: Result<VecDeque<(String, Vec<u8>)>, QueueError>,
)
    requires
        call_ensures(durable::load_queue, (data, max_queue), r),
    ensures
        ({
            let magic = vstd::utf8::encode_utf8("ENTMOOT-Q1\n"@);
            let foreign = !(magic.len() <= data@.len() && data@.take(magic.len() as int) == magic);
            &&& max_queue == 0 ==> (r matches Ok(q) && q@.len() == 0)
            &&& max_queue > 0 && foreign ==> (r matches Err(e) && e is NotAQueue)
        }),
{
    if let Ok(q) = r {
        assert(session::messages(q@).len() == q@.len());
    }
}

/// The subscriptions of a session that were saved are read again as they were: client,
/// identity, and every filter with its quality of service in the same order.
pub proof fn law_subscriptions_are_read_back(
    f: &SubsFile,
    bytes: Vec<u8>,
    data: &[u8],
    r: Option<SubsFile>,
    i: int,
)
    requires
        call_ensures(durable::save_subs, (f,), bytes),
        call_ensures(durable::load_subs, (data,), r),
        data@ == bytes@,
        vstd::utf8::encode_utf8(f.client_id@).len() <= u32::MAX,
        vstd::utf8::encode_utf8(f.identity@).len() <= u32::MAX,
        forall|k: int|
            0 <= k < f.subs@.len() ==> vstd::utf8::encode_utf8((#[trigger] f.subs@[k]).0@).len()
                <= u32::MAX,
        0 <= i < f.subs@.len(),
    ensures
        r matches Some(g) && {
            &&& g.client_id@ == f.client_id@
            &&& g.identity@ == f.identity@
            &&& g.subs@.len() == f.subs@.len()
            &&& g.subs@[i].0@ == f.subs@[i].0@
            &&& g.subs@[i].1 == f.subs@[i].1
        },
{
    let list = durable::sub_pairs(f@.subs);
    assert forall|k: int| 0 <= k < list.len() implies vstd::utf8::encode_utf8(
        (#[trigger] list[k]).0,
    ).len() <= u32::MAX && list[k].1.len() <= u32::MAX by {
        assert(f@.subs[k] == (f.subs@[k].0@, f.subs@[k].1));
    }
    durable::law_subs_file_round_trip(f@);
    if let Some(g) = r {
        assert(g@.subs == f@.subs);
        assert(f@.subs[i] == (f.subs@[i].0@, f.subs@[i].1));
        assert(g@.subs.len() == g.subs@.len());
        assert(g@.subs[i] == (g.subs@[i].0@, g.subs@[i].1));
    }
}

/// The files of a client are named by the hexadecimal digits of its id.
pub proof fn law_file_names(client_id: &str, queue: String, subs: String)
    requires
        call_ensures(durable::queue_file_name, (client_id,), queue),
        call_ensures(durable::subs_file_name, (client_id,), subs),
    ensures
        queue@ == text::hex(vstd::utf8::encode_utf8(client_id@)) + ".queue"@,
        subs@ == text::hex(vstd::utf8::encode_utf8(client_id@)) + ".subs"@,
{
}

/// Of kept subscriptions just those are reinstated that the rules of today grant to their
/// identity, in their order and with their quality of service.
pub proof fn law_reinstated_subscriptions(acl: &Acl, f: &SubsFile, r: Vec<(String, QoS)>)
    requires
        call_ensures(durable::reinstated, (acl, f), r),
    ensures
        packet::asked(r@) == f@.subs.filter(
            |s: (Seq<char>, QoS)| auth::subscribe_allowed(acl@, f.identity@, s.0),
        ),
{
    lemma_still_granted(acl@, f.identity@, f@.subs);
}

proof fn lemma_still_granted(
    acl: (Seq<AclRule>, bool),
    identity: Seq<char>,
    subs: Seq<(Seq<char>, QoS)>,
)
    ensures
        durable::still_granted(acl, identity, subs) == subs.filter(
            |s: (Seq<char>, QoS)| auth::subscribe_allowed(acl, identity, s.0),
        ),
    decreases subs.len(),
{
    reveal(Seq::filter);
    if subs.len() > 0 {
        lemma_still_granted(acl, identity, subs.drop_last());
    }
}

/// Data validation goes by the first rule whose filter matches the topic: a payload passes
/// where it is JSON that the rule's schema accepts, and fails with the rule's action where
/// it is not.
pub proof fn law_schemas_decide(
    policy: &SchemaPolicy,
    name: &str,
    payload: &[u8],
    r: Verdict,
    conforming: bool,
    judged: Verdict,
    i: int,
)
    requires
        call_ensures(SchemaPolicy::check, (policy, name, payload), r),
        call_ensures(SchemaPolicy::judge, (policy, name, conforming), judged),
        0 <= i < policy@.len(),
        topic::filter_matches(policy@[i].filter@, name@),
        forall|j: int|
            0 <= j < i ==> !topic::filter_matches((#[trigger] policy@[j]).filter@, name@),
    ensures
        schema::is_json(payload@) && schema::schema_accepts(policy@[i].schema@, payload@) ==> r
            is Pass,
        !(schema::is_json(payload@) && schema::schema_accepts(policy@[i].schema@, payload@)) ==> r
            == Verdict::Fail(policy@[i].on_fail),
        conforming ==> judged is Pass,
        !conforming ==> judged == Verdict::Fail(policy@[i].on_fail),
{
    schema::law_first_match_decides(policy@, name@, payload@, i);
    lemma_governing(policy@, name@, i);
}

proof fn lemma_governing(rules: Seq<SchemaRule>, name: Seq<char>, i: int)
    requires
        0 <= i < rules.len(),
        topic::filter_matches(rules[i].filter@, name),
        forall|j: int| 0 <= j < i ==> !topic::filter_matches((#[trigger] rules[j]).filter@, name),
    ensures
        schema::governing_rule(rules, name) == Some(rules[i]),
    decreases i,
{
    if i > 0 {
        let rest = rules.skip(1);
        assert(!topic::filter_matches(rules[0].filter@, name));
        assert forall|j: int| 0 <= j < i - 1 implies !topic::filter_matches(
            (#[trigger] rest[j]).filter@,
            name,
        ) by {
            assert(rest[j] == rules[j + 1]);
        }
        lemma_governing(rest, name, i - 1);
    }
}

/// On a topic that no rule matches every payload passes.
pub proof fn law_topics_without_a_schema(
    policy: &SchemaPolicy,
    name: &str,
    payload: &[u8],
    r: Verdict,
    conforming: bool,
    judged: Verdict,
)
    requires
        call_ensures(SchemaPolicy::check, (policy, name, payload), r),
        call_ensures(SchemaPolicy::judge, (policy, name, conforming), judged),
        forall|j: int|
            0 <= j < policy@.len() ==> !topic::filter_matches(
                (#[trigger] policy@[j]).filter@,
                name@,
            ),
    ensures
        r is Pass,
        judged is Pass,
{
    schema::law_unmatched_topics_pass(policy@, name@, payload@);
    lemma_not_governed(policy@, name@);
}

proof fn lemma_not_governed(rules: Seq<SchemaRule>, name: Seq<char>)
    requires
        forall|j: int|
            0 <= j < rules.len() ==> !topic::filter_matches((#[trigger] rules[j]).filter@, name),
    ensures
        schema::governing_rule(rules, name) is None,
    decreases rules.len(),
{
    if rules.len() > 0 {
        let rest = rules.skip(1);
        assert(!topic::filter_matches(rules[0].filter@, name));
        assert forall|j: int| 0 <= j < rest.len() implies !topic::filter_matches(
            (#[trigger] rest[j]).filter@,
            name,
        ) by {
            assert(rest[j] == rules[j + 1]);
        }
        lemma_not_governed(rest, name);
    }
}

/// Schemas are taken over as they are configured, and are refused exactly where one of
/// them is no JSON or no schema.
pub proof fn law_schemas_are_taken_over(rules: Vec<SchemaRule>, r: Result<SchemaPolicy, String>)
    requires
        call_ensures(SchemaPolicy::new, (rules,), r),
    ensures
        r is Ok <==> forall|i: int|
            0 <= i < rules@.len() ==> schema::json_fault((#[trigger] rules@[i]).schema@) is None
                && schema::schema_usable(rules@[i].schema@),
        r matches Ok(policy) ==> policy@ == rules@,
{
    lemma_first_fault(rules@);
}

proof fn lemma_first_fault(rules: Seq<SchemaRule>)
    ensures
        schema::first_fault(rules) is None <==> forall|i: int|
            0 <= i < rules.len() ==> schema::json_fault((#[trigger] rules[i]).schema@) is None
                && schema::schema_usable(rules[i].schema@),
    decreases rules.len(),
{
    if rules.len() > 0 {
        let d = rules.drop_last();
        lemma_first_fault(d);
        assert forall|i: int| 0 <= i < d.len() implies #[trigger] d[i] == rules[i] by {}
        assert(rules[rules.len() - 1] == rules.last());
        if schema::first_fault(rules) is None {
            assert forall|i: int| 0 <= i < rules.len() implies schema::json_fault(
                (#[trigger] rules[i]).schema@,
            ) is None && schema::schema_usable(rules[i].schema@) by {
                if i < d.len() {
                    assert(schema::json_fault(d[i].schema@) is None);
                }
            }
        } else if forall|i: int|
            0 <= i < rules.len() ==> schema::json_fault((#[trigger] rules[i]).schema@) is None
                && schema::schema_usable(rules[i].schema@) {
            assert forall|i: int| 0 <= i < d.len() implies schema::json_fault(
                (#[trigger] d[i]).schema@,
            ) is None && schema::schema_usable(d[i].schema@) by {
                assert(schema::json_fault(rules[i].schema@) is None);
            }
        }
    }
}

/// The staleness bound of a topic is that of the first rule whose filter matches it, or
/// else the default.
pub proof fn law_staleness_bounds(policy: &StalenessPolicy, name: &str, r: u64, i: int)
    requires
        call_ensures(StalenessPolicy::bound_secs, (policy, name), r),
    ensures
        0 <= i < policy@.0.len() && topic::filter_matches(policy@.0[i].filter@, name@) && (forall|
            j: int,
        |
            0 <= j < i ==> !topic::filter_matches((#[trigger] policy@.0[j]).filter@, name@))
            ==> r == policy@.0[i].bound_secs,
        (forall|j: int|
            0 <= j < policy@.0.len() ==> !topic::filter_matches(
                (#[trigger] policy@.0[j]).filter@,
                name@,
            )) ==> r == policy@.1,
{
    if 0 <= i < policy@.0.len() && topic::filter_matches(policy@.0[i].filter@, name@) && (forall|
        j: int,
    |
        0 <= j < i ==> !topic::filter_matches((#[trigger] policy@.0[j]).filter@, name@)) {
        staleness::law_first_match_decides(policy@.0, policy@.1, name@, i);
    }
    if forall|j: int|
        0 <= j < policy@.0.len() ==> !topic::filter_matches(
            (#[trigger] policy@.0[j]).filter@,
            name@,
        ) {
        staleness::law_default_without_match(policy@.0, policy@.1, name@);
    }
}


/// A queue file that ends in the middle of a message is refused as truncated, and one with
/// a topic that is no text as such, however many whole messages stand before.
pub proof fn law_damaged_queue_files(
    data: &[u8],
    max_queue: usize,
    r: Result<VecDeque<(String, Vec<u8>)>, QueueError>,
    list: Seq<(Seq<char>, Seq<u8>)>,
    tail: Seq<u8>,
    t: Seq<u8>,
    rest: Seq<u8>,
)
    requires
        call_ensures(durable::load_queue, (data, max_queue), r),
        max_queue > 0,
        codec::pairs_fit(list),
        data@ == vstd::utf8::encode_utf8("ENTMOOT-Q1\n"@) + codec::pairs_bytes(list) + tail,
    ensures
        0 < tail.len() < 4 ==> (r matches Err(e) && e is Truncated),
        t.len() <= u32::MAX && !vstd::utf8::valid_utf8(t) && tail == codec::chunk(t) + rest ==> (
        r matches Err(e) && e is BadTopic),
{
    let magic = durable::queue_magic();
    let body = codec::pairs_bytes(list) + tail;
    assert(data@ =~= magic + body);
    assert(data@.take(magic.len() as int) =~= magic);
    assert(data@.skip(magic.len() as int) =~= body);
    lemma_queue_tail(list, tail, max_queue as nat, Seq::empty());
    if t.len() <= u32::MAX && tail == codec::chunk(t) + rest {
        codec::law_chunk_round_trip(t, rest);
        codec::lemma_be32(t.len());
    }
}

proof fn lemma_queue_tail(
    list: Seq<(Seq<char>, Seq<u8>)>,
    tail: Seq<u8>,
    max_queue: nat,
    done: Seq<(Seq<char>, Seq<u8>)>,
)
    requires
        codec::pairs_fit(list),
    ensures
        exists|queue: Seq<(Seq<char>, Seq<u8>)>|
            durable::queue_entries(codec::pairs_bytes(list) + tail, max_queue, done)
                == #[trigger] durable::queue_entries(tail, max_queue, queue),
    decreases list.len(),
{
    if list.len() == 0 {
        assert(codec::pairs_bytes(list) + tail =~= tail);
        assert(durable::queue_entries(codec::pairs_bytes(list) + tail, max_queue, done)
            == durable::queue_entries(tail, max_queue, done));
    } else {
        let next = session::queue_put(done, max_queue, (list[0].0, list[0].1));
        lemma_first_entry(list, tail);
        lemma_queue_one(list, tail, max_queue, done);
        lemma_queue_tail(list.skip(1), tail, max_queue, next);
    }
}

proof fn lemma_queue_one(
    list: Seq<(Seq<char>, Seq<u8>)>,
    tail: Seq<u8>,
    max_queue: nat,
    done: Seq<(Seq<char>, Seq<u8>)>,
)
    requires
        list.len() > 0,
        codec::pairs_fit(list),
    ensures
        durable::queue_entries(codec::pairs_bytes(list) + tail, max_queue, done)
            == durable::queue_entries(
            codec::pairs_bytes(list.skip(1)) + tail,
            max_queue,
            session::queue_put(done, max_queue, (list[0].0, list[0].1)),
        ),
{
    lemma_first_entry(list, tail);
}

/// A snapshot with a topic that is no text is refused as such; the entries before it are
/// taken in.
pub proof fn law_snapshots_with_a_bad_topic(
    store: &mut RetainedStore,
    data: &[u8],
    r: Result<usize, SnapshotError>,
    list: Seq<(Seq<char>, Seq<u8>)>,
    t: Seq<u8>,
    value: Seq<u8>,
    rest: Seq<u8>,
)
    requires
        call_ensures(RetainedStore::load_snapshot, (store, data), r),
        codec::pairs_fit(list),
        t.len() <= u32::MAX,
        value.len() <= u32::MAX,
        !vstd::utf8::valid_utf8(t),
        data@ == vstd::utf8::encode_utf8("ENTMOOT-RET1\n"@) + codec::pairs_bytes(list) + (
        codec::chunk(t) + (codec::chunk(value) + rest)),
    ensures
        r == Err::<usize, SnapshotError>(SnapshotError::BadTopic),
        final(store)@ == retained::with_entries(old(store)@, list),
{
    let magic = retained::snapshot_magic();
    let tail = codec::chunk(t) + (codec::chunk(value) + rest);
    let body = codec::pairs_bytes(list) + tail;
    assert(data@ =~= magic + body);
    assert(data@.take(magic.len() as int) =~= magic);
    assert(data@.skip(magic.len() as int) =~= body);
    lemma_load_tail(old(store)@, list, tail, 0);
    codec::law_chunk_round_trip(t, codec::chunk(value) + rest);
    codec::law_chunk_round_trip(value, rest);
    codec::lemma_be32(t.len());
}

/// What does not begin as a file with subscriptions is not read.
pub proof fn law_foreign_subscription_files(data: &[u8], r: Option<SubsFile>)
    requires
        call_ensures(durable::load_subs, (data,), r),
    ensures
        ({
            let magic = vstd::utf8::encode_utf8("ENTMOOT-S1\n"@);
            !(magic.len() <= data@.len() && data@.take(magic.len() as int) == magic) ==> r is None
        }),
{
}

/// The number of retained messages is that of the topics that have one, and a list of them
/// holds each once; changes are reported once, until there is another.
pub proof fn law_retained_messages_are_counted(
    store: &RetainedStore,
    n: usize,
    empty: bool,
    list: Vec<(String, Vec<u8>)>,
    changed: &mut RetainedStore,
    r: bool,
    name: Seq<char>,
    value: Seq<u8>,
)
    requires
        call_ensures(RetainedStore::len, (store,), n),
        call_ensures(RetainedStore::is_empty, (store,), empty),
        call_ensures(RetainedStore::snapshot, (store,), list),
        call_ensures(RetainedStore::take_dirty, (changed,), r),
    ensures
        n == store@.dom().len(),
        empty <==> n == 0,
        list@.len() == n,
        store@.contains_pair(name, value) <==> exists|i: int|
            0 <= i < list@.len() && (#[trigger] list@[i]).0@ == name && list@[i].1@ == value,
        r <==> old(changed).dirty(),
        !final(changed).dirty(),
        final(changed)@ == old(changed)@,
{
    let pairs = codec::pairs(list@);
    assert(pairs.len() == list@.len());
    assert forall|i: int| 0 <= i < list@.len() implies #[trigger] pairs[i] == (
        list@[i].0@,
        list@[i].1@,
    ) by {}
    if store@.contains_pair(name, value) {
        let i = choose|i: int| 0 <= i < pairs.len() && (#[trigger] pairs[i]).0 == name;
        assert(store@.contains_pair(pairs[i].0, pairs[i].1));
        assert(list@[i].0@ == name);
    }
    if exists|i: int|
        0 <= i < list@.len() && (#[trigger] list@[i]).0@ == name && list@[i].1@ == value {
        let i = choose|i: int|
            0 <= i < list@.len() && (#[trigger] list@[i]).0@ == name && list@[i].1@ == value;
        assert(store@.contains_pair(pairs[i].0, pairs[i].1));
    }
}

/// Every scan is counted: each one that is asked for, and for a subscription only one that
/// the cache could not spare. After a change the cache can spare none.
pub proof fn law_scans_are_counted(
    store: &mut RetainedStore,
    filter: &str,
    r: Vec<(String, Vec<u8>, u64)>,
    other: &mut RetainedStore,
    shared: Arc<Vec<(String, Vec<u8>, u64)>>,
    changed: &mut RetainedStore,
    name: String,
    value: Vec<u8>,
    cleared: &mut RetainedStore,
    gone: &str,
)
    requires
        call_ensures(RetainedStore::matching, (store, filter), r),
        call_ensures(RetainedStore::matching_cached, (other, filter), shared),
        call_ensures(RetainedStore::insert, (changed, name, value), ()),
        call_ensures(RetainedStore::remove, (cleared, gone), ()),
        old(store).scans() < u64::MAX,
        old(other).scans() < u64::MAX,
    ensures
        final(store).scans() == old(store).scans() + 1,
        old(other).answerable().contains(filter@) ==> final(other).scans() == old(other).scans(),
        !old(other).answerable().contains(filter@) ==> final(other).scans() == old(other).scans()
            + 1,
        final(changed).answerable() =~= Set::empty(),
        final(changed).scans() == old(changed).scans(),
        final(cleared).answerable() =~= Set::empty(),
        final(cleared).scans() == old(cleared).scans(),
{
}

/// What is wrong with a schema is told with its filter: that it is no JSON, or that it is
/// no schema, and what was said of it.
pub proof fn law_schema_faults_in_words(
    filter: &str,
    complaint: &str,
    not_json: String,
    invalid: String,
    rules: Vec<SchemaRule>,
    r: Result<SchemaPolicy, String>,
    i: int,
)
    requires
        call_ensures(schema::not_json, (filter, complaint), not_json),
        call_ensures(schema::invalid_schema, (filter, complaint), invalid),
        call_ensures(SchemaPolicy::new, (rules,), r),
        0 <= i < rules@.len(),
        schema::json_fault(rules@[i].schema@) is Some,
        forall|j: int|
            0 <= j < i ==> schema::json_fault((#[trigger] rules@[j]).schema@) is None
                && schema::schema_usable(rules@[j].schema@),
    ensures
        not_json@ == "schema for filter "@ + text::quoted(filter@) + " is not valid JSON: "@
            + complaint@,
        invalid@ == "schema for filter "@ + text::quoted(filter@) + " is invalid: "@ + complaint@,
        r matches Err(e) && e@ == "schema for filter "@ + text::quoted(rules@[i].filter@)
            + " is not valid JSON: "@ + schema::json_fault(rules@[i].schema@)->0,
{
    lemma_fault_at(rules@, i);
}

proof fn lemma_fault_at(rules: Seq<SchemaRule>, i: int)
    requires
        0 <= i < rules.len(),
        schema::json_fault(rules[i].schema@) is Some,
        forall|j: int|
            0 <= j < i ==> schema::json_fault((#[trigger] rules[j]).schema@) is None
                && schema::schema_usable(rules[j].schema@),
    ensures
        schema::first_fault(rules) == Some(i as nat),
    decreases rules.len(),
{
    let d = rules.drop_last();
    assert forall|j: int| 0 <= j < d.len() implies #[trigger] d[j] == rules[j] by {}
    if i < d.len() {
        lemma_fault_at(d, i);
    } else {
        lemma_first_fault(d);
        assert forall|j: int| 0 <= j < d.len() implies schema::json_fault(
            (#[trigger] d[j]).schema@,
        ) is None && schema::schema_usable(d[j].schema@) by {
            assert(schema::json_fault(rules[j].schema@) is None);
        }
    }
}


/// A chunk is read whole: its bytes, and where the next begins; where the bytes end before
/// the chunk does there is none.
pub proof fn law_chunks_are_read_whole(s: &[u8], at: usize, r: Option<(Vec<u8>, usize)>, n: int)
    requires
        call_ensures(codec::read_chunk, (s, at), r),
        at <= s@.len(),
        at + 4 <= s@.len() ==> n == ((s@[at as int] * 256 + s@[at + 1]) * 256 + s@[at + 2]) * 256
            + s@[at + 3],
    ensures
        r is Some <==> at + 4 <= s@.len() && at + 4 + n <= s@.len(),
        r matches Some((bytes, next)) ==> next == at + 4 + n && bytes@ =~= s@.subrange(
            at + 4,
            at + 4 + n,
        ),
{
    let rest = s@.skip(at as int);
    if at + 4 <= s@.len() {
        assert(rest.take(4)[0] == s@[at as int]);
        assert(rest.take(4)[1] == s@[at + 1]);
        assert(rest.take(4)[2] == s@[at + 2]);
        assert(rest.take(4)[3] == s@[at + 3]);
        assert(codec::be32_value(rest.take(4)) == n);
        if at + 4 + n <= s@.len() {
            assert(rest.subrange(4, 4 + n) =~= s@.subrange(at + 4, at + 4 + n));
            if let Some((_, next)) = r {
                assert(rest.skip(4 + n).len() == s@.skip(next as int).len());
            }
        }
    }
}


/// A file with subscriptions that ends in the middle of one is not read at all, nor is one
/// with a quality of service that there is not.
pub proof fn law_damaged_subscription_files(
    data: &[u8],
    r: Option<SubsFile>,
    client_id: Seq<u8>,
    identity: Seq<u8>,
    subs: Seq<(Seq<char>, QoS)>,
    tail: Seq<u8>,
    filter: Seq<u8>,
    qos: u8,
    rest: Seq<u8>,
)
    requires
        call_ensures(durable::load_subs, (data,), r),
        client_id.len() <= u32::MAX,
        identity.len() <= u32::MAX,
        codec::pairs_fit(durable::sub_pairs(subs)),
        data@ == vstd::utf8::encode_utf8("ENTMOOT-S1\n"@) + (codec::chunk(client_id) + (codec::chunk(
            identity,
        ) + (codec::pairs_bytes(durable::sub_pairs(subs)) + tail))),
    ensures
        0 < tail.len() < 4 ==> r is None,
        filter.len() <= u32::MAX && qos > 2 && tail == codec::chunk(filter) + (codec::chunk(
            seq![qos],
        ) + rest) ==> r is None,
{
    let magic = durable::subs_magic();
    let body = codec::chunk(client_id) + (codec::chunk(identity) + (codec::pairs_bytes(
        durable::sub_pairs(subs),
    ) + tail));
    assert(data@.take(magic.len() as int) =~= magic);
    assert(data@.skip(magic.len() as int) =~= body);
    let entries = codec::pairs_bytes(durable::sub_pairs(subs)) + tail;
    codec::law_chunk_round_trip(client_id, codec::chunk(identity) + entries);
    codec::law_chunk_round_trip(identity, entries);
    lemma_subs_tail(subs, tail, Seq::empty());
    if filter.len() <= u32::MAX && tail == codec::chunk(filter) + (codec::chunk(seq![qos]) + rest) {
        codec::law_chunk_round_trip(filter, codec::chunk(seq![qos]) + rest);
        codec::law_chunk_round_trip(seq![qos], rest);
        codec::lemma_be32(filter.len());
    }
}

proof fn lemma_subs_tail(
    subs: Seq<(Seq<char>, QoS)>,
    tail: Seq<u8>,
    done: Seq<(Seq<char>, QoS)>,
)
    requires
        codec::pairs_fit(durable::sub_pairs(subs)),
    ensures
        exists|more: Seq<(Seq<char>, QoS)>|
            durable::subs_entries(codec::pairs_bytes(durable::sub_pairs(subs)) + tail, done)
                == #[trigger] durable::subs_entries(tail, more),
    decreases subs.len(),
{
    let list = durable::sub_pairs(subs);
    let s = codec::pairs_bytes(list) + tail;
    if subs.len() == 0 {
        assert(s =~= tail);
        assert(durable::subs_entries(s, done) == durable::subs_entries(tail, done));
    } else {
        lemma_first_entry(list, tail);
        assert(list.skip(1) =~= durable::sub_pairs(subs.skip(1)));
        assert(list[0] == (subs[0].0, seq![subs[0].1.number()]));
        let next = done.push((subs[0].0, QoS::of(subs[0].1.number())));
        assert(durable::subs_entries(s, done) == durable::subs_entries(
            codec::pairs_bytes(list.skip(1)) + tail,
            next,
        ));
        lemma_subs_tail(subs.skip(1), tail, next);
    }
}

} // verus!
