//! The mesh-wide retained-message store: a node's replica, fed by every retained put
//! and delete in the mesh, saved to a snapshot file and served to nodes that join late.
//!
//! A stored value is an envelope: the time it was written, and the payload. The
//! messages that match a filter are found by a scan of the replica; a cache lets the
//! subscriptions of a reconnect storm, which mostly share a filter, share one scan.

use crate::codec::{self, copy_range, get_be64, has_magic, put_be64, put_bytes, put_pair, read_chunk, utf8_text};
use crate::prefix;
use crate::strmap::StrMap;
use crate::topic::{self, retained_keyexpr, retained_keyexpr_to_topic, topic_matches, RETAINED_CHUNK};
use crate::topic_laws;
use std::sync::Arc;
use vstd::prelude::*;
use vstd::string::*;

verus! {

/// A payload with the time it was written, in milliseconds since 1970.
pub open spec fn envelope(payload: Seq<u8>, written_at: u64) -> Seq<u8> {
    codec::be64(written_at) + payload
}

/// The payload and the time in an envelope. A value too short to carry a time is all
/// payload, and counts as written at the epoch.
pub open spec fn opened(stored: Seq<u8>) -> (Seq<u8>, u64) {
    if stored.len() < 8 {
        (stored, 0)
    } else {
        (stored.skip(8), codec::be64_value(stored.take(8)) as u64)
    }
}

/// An envelope gives back what was put into it.
pub proof fn law_envelope_round_trip(payload: Seq<u8>, written_at: u64)
    ensures
        opened(envelope(payload, written_at)) == (payload, written_at),
{
    codec::lemma_be64(written_at);
    assert(envelope(payload, written_at).skip(8) =~= payload);
    assert(envelope(payload, written_at).take(8) =~= codec::be64(written_at));
}

pub fn encode_envelope(payload: &[u8], written_at: u64) -> (r: Vec<u8>)
    ensures
        r@ == envelope(payload@, written_at),
{
    let mut out: Vec<u8> = Vec::new();
    put_be64(&mut out, written_at);
    put_bytes(&mut out, payload);
    assert(out@ =~= envelope(payload@, written_at));
    out
}

pub fn decode_envelope(stored: &[u8]) -> (r: (Vec<u8>, u64))
    ensures
        (r.0@, r.1) == opened(stored@),
{
    if stored.len() < 8 {
        let whole = copy_range(stored, 0, stored.len());
        assert(stored@.subrange(0, stored@.len() as int) =~= stored@);
        (whole, 0)
    } else {
        let written_at = get_be64(stored, 0);
        let payload = copy_range(stored, 8, stored.len());
        assert(stored@.subrange(0, 8) =~= stored@.take(8));
        assert(stored@.subrange(8, stored@.len() as int) =~= stored@.skip(8));
        (payload, written_at)
    }
}

/// A message found by a filter: topic, payload and the time it was written.
pub open spec fn found_items(v: Seq<(String, Vec<u8>, u64)>) -> Seq<(Seq<char>, Seq<u8>, u64)> {
    v.map_values(|m: (String, Vec<u8>, u64)| (m.0@, m.1@, m.2))
}

/// The stored messages that match a filter, each once, in some order.
pub open spec fn is_matching(
    store: Map<Seq<char>, Seq<u8>>,
    filter: Seq<char>,
    list: Seq<(Seq<char>, Seq<u8>, u64)>,
) -> bool {
    &&& forall|i: int|
        0 <= i < list.len() ==> {
            let m = #[trigger] list[i];
            store.dom().contains(m.0) && topic::filter_matches(filter, m.0) && (m.1, m.2) == opened(
                store[m.0],
            )
        }
    &&& forall|i: int, j: int| 0 <= i < j < list.len() ==> (#[trigger] list[i]).0 != (#[trigger] list[j]).0
    &&& forall|t: Seq<char>| #[trigger]
        store.dom().contains(t) && topic::filter_matches(filter, t) ==> exists|i: int|
            0 <= i < list.len() && (#[trigger] list[i]).0 == t
}

/// `moka::sync::Cache`; what one can answer is [`cached`].
#[verifier::external_type_specification]
#[verifier::external_body]
#[verifier::reject_recursive_types(K)]
#[verifier::reject_recursive_types(V)]
#[verifier::reject_recursive_types(S)]
pub struct ExCache<K, V, S>(moka::sync::Cache<K, V, S>);

/// What the cache can answer: for a filter, the list stored under it.
pub uninterp spec fn cached(
    cache: moka::sync::Cache<String, Arc<Vec<(String, Vec<u8>, u64)>>>,
) -> Map<Seq<char>, Seq<(Seq<char>, Seq<u8>, u64)>>;

/// How many entries the cache was made for.
pub uninterp spec fn capacity(
    cache: moka::sync::Cache<String, Arc<Vec<(String, Vec<u8>, u64)>>>,
) -> u64;

/// A cache without entries.
pub open spec fn nothing_cached() -> Map<Seq<char>, Seq<(Seq<char>, Seq<u8>, u64)>> {
    Map::empty()
}

/// Calls `moka::sync::Cache::new`: a new cache holds nothing, and keeps to its capacity.
#[verifier::external_body]
fn new_cache(max_capacity: u64) -> (r: moka::sync::Cache<String, Arc<Vec<(String, Vec<u8>, u64)>>>)
    ensures
        cached(r) == nothing_cached(),
        capacity(r) == max_capacity,
{
    moka::sync::Cache::new(max_capacity)
}

/// Calls `moka::sync::Cache::get`: there is an answer where the cache holds the key, and it
/// is the value stored under it. Entries may be gone afterwards, but only where there were
/// more than the cache was made for.
#[verifier::external_body]
fn cache_get(
    cache: &mut moka::sync::Cache<String, Arc<Vec<(String, Vec<u8>, u64)>>>,
    key: &str,
) -> (r: Option<Arc<Vec<(String, Vec<u8>, u64)>>>)
    ensures
        capacity(*final(cache)) == capacity(*old(cache)),
        cached(*final(cache)).submap_of(cached(*old(cache))),
        cached(*old(cache)).dom().len() <= capacity(*old(cache)) ==> cached(*final(cache))
            == cached(*old(cache)),
        r is Some <==> cached(*old(cache)).dom().contains(key@),
        r matches Some(v) ==> cached(*old(cache)).contains_pair(key@, found_items(v@)),
{
    cache.get(key)
}

/// Calls `moka::sync::Cache::insert`: the value is stored under the key, in place of one
/// that was there. A cache that is full may evict any entry, the new one among them; which
/// one is left unsaid.
#[verifier::external_body]
fn cache_insert(
    cache: &mut moka::sync::Cache<String, Arc<Vec<(String, Vec<u8>, u64)>>>,
    key: String,
    value: Arc<Vec<(String, Vec<u8>, u64)>>,
)
    ensures
        capacity(*final(cache)) == capacity(*old(cache)),
        cached(*final(cache)).submap_of(cached(*old(cache)).insert(key@, found_items(value@))),
        cached(*old(cache)).dom().len() < capacity(*old(cache)) ==> cached(*final(cache))
            == cached(*old(cache)).insert(key@, found_items(value@)),
{
    cache.insert(key, value)
}

/// How many filters the cache keeps.
pub const MATCH_CACHE_CAPACITY: u64 = 10_000;

/// A node's replica of the retained messages.
pub struct RetainedStore {
    map: StrMap<Vec<u8>>,
    dirty: bool,
    match_cache: moka::sync::Cache<String, Arc<Vec<(String, Vec<u8>, u64)>>>,
    scans: u64,
}

impl View for RetainedStore {
    type V = Map<Seq<char>, Seq<u8>>;

    /// The stored envelope of each topic.
    closed spec fn view(&self) -> Map<Seq<char>, Seq<u8>> {
        self.map@.map_values(|v: Vec<u8>| v@)
    }
}

/// The entries of a store, each once, in some order.
pub open spec fn lists(
    store: Map<Seq<char>, Seq<u8>>,
    list: Seq<(Seq<char>, Seq<u8>)>,
) -> bool {
    &&& forall|i: int|
        0 <= i < list.len() ==> store.contains_pair((#[trigger] list[i]).0, list[i].1)
    &&& forall|i: int, j: int| 0 <= i < j < list.len() ==> (#[trigger] list[i]).0 != (#[trigger] list[j]).0
    &&& forall|t: Seq<char>| #[trigger]
        store.dom().contains(t) ==> exists|i: int| 0 <= i < list.len() && (#[trigger] list[i]).0 == t
}

/// What a subscription does to the count of scans and to what the cache can answer: a
/// filter that it can answer needs no scan, and one that was scanned for is answered from
/// then on, where there was room for it. A cache without room may forget any filter.
pub open spec fn shares_scans(before: RetainedStore, after: RetainedStore, filter: Seq<char>) -> bool {
    let known = before.answerable();
    &&& after.scans() == (if known.contains(filter) {
        before.scans()
    } else {
        before.scans().wrapping_add(1)
    })
    &&& after.answerable().subset_of(known.insert(filter))
    &&& after.answerable().len() <= known.len() + (if known.contains(filter) {
        0nat
    } else {
        1nat
    })
    &&& known.len() < MATCH_CACHE_CAPACITY ==> after.answerable() == known.insert(filter)
}

/// Subscriptions on one filter share a scan: where the cache has room, the second of two,
/// with no change of the replica between them, makes none.
pub proof fn law_subscriptions_share_a_scan(
    before: RetainedStore,
    between: RetainedStore,
    after: RetainedStore,
    filter: Seq<char>,
)
    requires
        before.answerable().len() < MATCH_CACHE_CAPACITY,
        shares_scans(before, between, filter),
        shares_scans(between, after, filter),
    ensures
        after.scans() == between.scans(),
        between.scans() == before.scans() || between.scans() == before.scans().wrapping_add(1),
{
}

impl RetainedStore {
    /// Everything that the cache can answer matches the replica as it is.
    pub closed spec fn wf(&self) -> bool {
        &&& self.map.wf()
        &&& capacity(self.match_cache) == MATCH_CACHE_CAPACITY
        &&& cached(self.match_cache).dom().finite()
        &&& forall|f: Seq<char>| #[trigger]
            cached(self.match_cache).dom().contains(f) ==> is_matching(
                self@,
                f,
                cached(self.match_cache)[f],
            )
    }

    /// Whether there are changes that no snapshot holds.
    pub closed spec fn dirty(&self) -> bool {
        self.dirty
    }

    /// How many scans there have been.
    pub closed spec fn scans(&self) -> u64 {
        self.scans
    }

    /// The filters that the cache can answer, so that they need no scan.
    pub closed spec fn answerable(&self) -> Set<Seq<char>> {
        cached(self.match_cache).dom()
    }

    pub fn new() -> (r: Self)
        ensures
            r.wf(),
            r@ == Map::<Seq<char>, Seq<u8>>::empty(),
            !r.dirty(),
            r.scans() == 0,
            r.answerable() == Set::<Seq<char>>::empty(),
    {
        let r = RetainedStore {
            map: StrMap::new(),
            dirty: false,
            match_cache: new_cache(MATCH_CACHE_CAPACITY),
            scans: 0,
        };
        assert(r@ =~= Map::<Seq<char>, Seq<u8>>::empty());
        r
    }

    pub fn insert(&mut self, topic_name: String, payload: Vec<u8>)
        requires
            old(self).wf(),
        ensures
            final(self).wf(),
            final(self)@ == old(self)@.insert(topic_name@, payload@),
            final(self).dirty(),
            final(self).scans() == old(self).scans(),
            final(self).answerable() == Set::<Seq<char>>::empty(),
    {
        let ghost before = self@;
        let ghost t = topic_name@;
        let ghost p = payload@;
        self.map.insert(topic_name, payload);
        self.dirty = true;
        self.match_cache = new_cache(MATCH_CACHE_CAPACITY);
        assert(self@ =~= before.insert(t, p));
    }

    pub fn remove(&mut self, topic_name: &str)
        requires
            old(self).wf(),
        ensures
            final(self).wf(),
            final(self)@ == old(self)@.remove(topic_name@),
            final(self).dirty(),
            final(self).scans() == old(self).scans(),
            final(self).answerable() == Set::<Seq<char>>::empty(),
    {
        let ghost before = self@;
        self.map.remove(topic_name);
        self.dirty = true;
        self.match_cache = new_cache(MATCH_CACHE_CAPACITY);
        assert(self@ =~= before.remove(topic_name@));
    }

    pub fn len(&self) -> (n: usize)
        requires
            self.wf(),
        ensures
            n == self@.len(),
    {
        assert(self@.dom() =~= self.map@.dom());
        self.map.len()
    }

    pub fn is_empty(&self) -> (r: bool)
        requires
            self.wf(),
        ensures
            r == (self@.len() == 0),
    {
        self.len() == 0
    }

    /// Whether there were changes since the last call.
    pub fn take_dirty(&mut self) -> (r: bool)
        requires
            old(self).wf(),
        ensures
            final(self).wf(),
            final(self)@ == old(self)@,
            final(self).scans() == old(self).scans(),
            final(self).answerable() == old(self).answerable(),
            r == old(self).dirty(),
            !final(self).dirty(),
    {
        let r = self.dirty;
        self.dirty = false;
        assert(self@ == old(self)@);
        r
    }

    /// Number of scans since startup: the misses of `matching_cached` and the calls of
    /// `matching`.
    pub fn scan_count(&self) -> (n: u64)
        ensures
            n == self.scans(),
    {
        self.scans
    }

    /// The retained messages that match a subscription filter.
    pub fn matching(&mut self, filter: &str) -> (r: Vec<(String, Vec<u8>, u64)>)
        requires
            old(self).wf(),
        ensures
            final(self).wf(),
            final(self)@ == old(self)@,
            final(self).dirty() == old(self).dirty(),
            final(self).scans() == old(self).scans().wrapping_add(1),
            final(self).answerable() == old(self).answerable(),
            is_matching(old(self)@, filter@, found_items(r@)),
    {
        self.scans = self.scans.wrapping_add(1);
        assert(self@ == old(self)@);
        self.scan(filter)
    }

    /// Goes through the replica once.
    fn scan(&self, filter: &str) -> (r: Vec<(String, Vec<u8>, u64)>)
        requires
            self.wf(),
        ensures
            is_matching(self@, filter@, found_items(r@)),
    {
        let n = self.map.len();
        let mut out: Vec<(String, Vec<u8>, u64)> = Vec::new();
        let mut i: usize = 0;
        proof {
            self.map.lemma_keys();
        }
        let ghost ks = self.map.keys();
        while i < n
            invariant
                self.map.wf(),
                n == ks.len(),
                ks == self.map.keys(),
                ks.no_duplicates(),
                i <= n,
                forall|k: int|
                    0 <= k < out@.len() ==> {
                        let m = #[trigger] out@[k];
                        self@.dom().contains(m.0@) && topic::filter_matches(filter@, m.0@) && (
                            m.1@,
                            m.2,
                        ) == opened(self@[m.0@]) && ks.take(i as int).contains(m.0@)
                    },
                forall|a: int, b: int|
                    0 <= a < b < out@.len() ==> (#[trigger] out@[a]).0@ != (#[trigger] out@[b]).0@,
                forall|j: int|
                    0 <= j < i && topic::filter_matches(filter@, #[trigger] ks[j]) ==> exists|
                        k: int,
                    |
                        0 <= k < out@.len() && (#[trigger] out@[k]).0@ == ks[j],
            decreases n - i,
        {
            let (key, stored) = self.map.entry(i);
            let ghost before = out@;
            proof {
                prefix::lemma_next_is_new(ks, i as int);
                prefix::lemma_take_next(ks, i as int);
            }
            if topic_matches(filter, key.as_str()) {
                let (payload, written_at) = decode_envelope(stored.as_slice());
                out.push((key.clone(), payload, written_at));
                proof {
                    assert(out@.len() == before.len() + 1);
                    assert(forall|k: int| 0 <= k < before.len() ==> out@[k] == #[trigger] before[k]);
                    assert(out@[before.len() as int].0@ == key@);
                    assert forall|a: int, b: int| 0 <= a < b < out@.len() implies (#[trigger] out@[a]).0@
                        != (#[trigger] out@[b]).0@ by {
                        assert(out@[a] == before[a]);
                        if b < before.len() {
                            assert(out@[b] == before[b]);
                        }
                    }
                    assert forall|j: int|
                        0 <= j < i + 1 && topic::filter_matches(
                            filter@,
                            #[trigger] ks[j],
                        ) implies exists|k: int|
                        0 <= k < out@.len() && (#[trigger] out@[k]).0@ == ks[j] by {
                        if j < i {
                            let k = choose|k: int|
                                0 <= k < before.len() && (#[trigger] before[k]).0@ == ks[j];
                            assert(out@[k].0@ == ks[j]);
                        } else {
                            assert(out@[before.len() as int].0@ == ks[j]);
                        }
                    }
                }
            }
            i = i + 1;
        }
        proof {
            let list = found_items(out@);
            assert forall|t: Seq<char>| #[trigger]
                self@.dom().contains(t) && topic::filter_matches(filter@, t) implies exists|i: int|
                0 <= i < list.len() && (#[trigger] list[i]).0 == t by {
                self.map.lemma_keys();
                assert(self.map@.dom().contains(t));
                assert(ks.contains(t));
                let j = ks.index_of(t);
                assert(ks[j] == t);
                let k = choose|k: int| 0 <= k < out@.len() && (#[trigger] out@[k]).0@ == ks[j];
                assert(list[k].0 == t);
            }
            assert forall|i: int| 0 <= i < list.len() implies ({
                let m = #[trigger] list[i];
                self@.dom().contains(m.0) && topic::filter_matches(filter@, m.0) && (m.1, m.2)
                    == opened(self@[m.0])
            }) by {
                assert(self@.dom().contains(out@[i].0@));
            }
            assert forall|i: int, j: int| 0 <= i < j < list.len() implies (#[trigger] list[i]).0
                != (#[trigger] list[j]).0 by {
                assert(out@[i].0@ != out@[j].0@);
            }
        }
        out
    }

    /// The same messages as `matching`, by way of the cache: a scan is made only where
    /// the cache has no answer for the filter.
    pub fn matching_cached(&mut self, filter: &str) -> (r: Arc<Vec<(String, Vec<u8>, u64)>>)
        requires
            old(self).wf(),
        ensures
            final(self).wf(),
            final(self)@ == old(self)@,
            final(self).dirty() == old(self).dirty(),
            shares_scans(*old(self), *final(self), filter@),
            is_matching(old(self)@, filter@, found_items(r@)),
    {
        let ghost before = cached(self.match_cache);
        let hit = cache_get(&mut self.match_cache, filter);
        let ghost known = cached(self.match_cache);
        proof {
            assert(self@ == old(self)@);
            vstd::set_lib::lemma_len_subset(known.dom(), before.dom());
            assert forall|f: Seq<char>| #[trigger] known.dom().contains(f) implies is_matching(
                self@,
                f,
                known[f],
            ) by {
                assert(before.dom().contains(f));
                assert(known[f] == before[f]);
                assert(is_matching(old(self)@, f, before[f]));
            }
        }
        match hit {
            Some(list) => {
                assert(before.dom().insert(filter@) =~= before.dom());
                list
            },
            None => {
                self.scans = self.scans.wrapping_add(1);
                let list = Arc::new(self.scan(filter));
                cache_insert(&mut self.match_cache, filter.to_owned(), list.clone());
                proof {
                    let grown = known.insert(filter@, found_items(list@));
                    let held = cached(self.match_cache);
                    assert(self@ == old(self)@);
                    assert(held.dom().subset_of(grown.dom()));
                    vstd::set_lib::lemma_len_subset(held.dom(), grown.dom());
                    assert forall|f: Seq<char>| #[trigger]
                        held.dom().contains(f) implies is_matching(self@, f, held[f]) by {
                        assert(grown.dom().contains(f));
                        assert(held[f] == grown[f]);
                        if f != filter@ {
                            assert(known.dom().contains(f));
                        }
                    }
                }
                list
            },
        }
    }

    /// All entries.
    pub fn snapshot(&self) -> (r: Vec<(String, Vec<u8>)>)
        requires
            self.wf(),
        ensures
            lists(self@, codec::pairs(r@)),
            r@.len() == self@.len(),
    {
        let n = self.map.len();
        let mut out: Vec<(String, Vec<u8>)> = Vec::new();
        let mut i: usize = 0;
        proof {
            self.map.lemma_keys();
        }
        let ghost ks = self.map.keys();
        while i < n
            invariant
                self.map.wf(),
                n == ks.len(),
                ks == self.map.keys(),
                i <= n,
                out@.len() == i,
                forall|k: int|
                    0 <= k < i ==> (#[trigger] out@[k]).0@ == ks[k] && self@.contains_pair(
                        out@[k].0@,
                        out@[k].1@,
                    ),
            decreases n - i,
        {
            let (key, stored) = self.map.entry(i);
            let value = copy_range(stored.as_slice(), 0, stored.len());
            assert(stored@.subrange(0, stored@.len() as int) =~= stored@);
            assert(self@.contains_pair(key@, value@));
            out.push((key.clone(), value));
            i = i + 1;
        }
        proof {
            let list = codec::pairs(out@);
            assert forall|i: int| 0 <= i < list.len() implies self@.contains_pair(
                (#[trigger] list[i]).0,
                list[i].1,
            ) by {
                assert(out@[i].0@ == ks[i]);
            }
            assert forall|i: int, j: int| 0 <= i < j < list.len() implies (#[trigger] list[i]).0
                != (#[trigger] list[j]).0 by {
                assert(out@[i].0@ == ks[i] && out@[j].0@ == ks[j]);
            }
            assert forall|t: Seq<char>| #[trigger] self@.dom().contains(t) implies exists|i: int|
                0 <= i < list.len() && (#[trigger] list[i]).0 == t by {
                assert(self.map@.dom().contains(t));
                assert(ks.contains(t));
                let j = ks.index_of(t);
                assert(out@[j].0@ == ks[j]);
                assert(list[j].0 == t);
            }
            assert(self@.dom() =~= self.map@.dom());
        }
        out
    }

    /// Merges a snapshot into the store; hands back how many entries it held. The
    /// entries before a fault stay, and the cache forgets what it could answer.
    pub fn load_snapshot(&mut self, data: &[u8]) -> (r: Result<usize, SnapshotError>)
        requires
            old(self).wf(),
        ensures
            final(self).wf(),
            final(self).dirty() == old(self).dirty(),
            final(self).scans() == old(self).scans(),
            final(self).answerable() == (if codec::after_magic(data@, snapshot_magic()) is Some {
                Set::empty()
            } else {
                old(self).answerable()
            }),
            (final(self)@, loaded_count(r)) == loaded(old(self)@, data@),
    {
        let magic = SNAPSHOT_MAGIC.as_bytes();
        if !has_magic(data, magic) {
            return Err(SnapshotError::NotASnapshot);
        }
        let mut at: usize = magic.len();
        let mut count: usize = 0;
        self.match_cache = new_cache(MATCH_CACHE_CAPACITY);
        assert(self@ == old(self)@);
        while at < data.len()
            invariant
                at <= data@.len(),
                count <= at,
                self.map.wf(),
                cached(self.match_cache) == nothing_cached(),
                capacity(self.match_cache) == MATCH_CACHE_CAPACITY,
                self.dirty == old(self).dirty,
                self.scans == old(self).scans,
                loaded(old(self)@, data@) == loaded_entries(
                    self@,
                    data@.skip(at as int),
                    count as nat,
                ),
            decreases data.len() - at,
        {
            let ghost here = data@.skip(at as int);
            let (topic_bytes, after_topic) = match read_chunk(data, at) {
                Some(c) => c,
                None => {
                    return Err(SnapshotError::Truncated);
                },
            };
            let (value, next) = match read_chunk(data, after_topic) {
                Some(c) => c,
                None => {
                    return Err(SnapshotError::Truncated);
                },
            };
            let t = match utf8_text(topic_bytes) {
                Some(t) => t,
                None => {
                    return Err(SnapshotError::BadTopic);
                },
            };
            let ghost before = self@;
            let ghost tv = t@;
            let ghost vv = value@;
            self.map.insert(t, value);
            assert(self@ =~= before.insert(tv, vv));
            count = count + 1;
            at = next;
        }
        assert(data@.skip(at as int).len() == 0);
        Ok(count)
    }

    /// The bytes of a snapshot of the store.
    pub fn save_snapshot(&self) -> (r: Vec<u8>)
        requires
            self.wf(),
        ensures
            exists|list: Seq<(Seq<char>, Seq<u8>)>|
                lists(self@, list) && r@ == #[trigger] snapshot_bytes(list),
    {
        let items = self.snapshot();
        let ghost list = codec::pairs(items@);
        let mut out: Vec<u8> = Vec::new();
        put_bytes(&mut out, SNAPSHOT_MAGIC.as_bytes());
        let mut i: usize = 0;
        assert(list.skip(0) =~= list);
        assert(out@ + codec::pairs_bytes(list.skip(0)) =~= snapshot_bytes(list));
        while i < items.len()
            invariant
                i <= items@.len(),
                list == codec::pairs(items@),
                out@ + codec::pairs_bytes(list.skip(i as int)) == snapshot_bytes(list),
            decreases items.len() - i,
        {
            let ghost before = out@;
            put_pair(&mut out, items[i].0.as_str(), items[i].1.as_slice());
            proof {
                codec::lemma_pairs_step(list, i as int);
                assert(out@ + codec::pairs_bytes(list.skip(i + 1)) =~= before + codec::pairs_bytes(
                    list.skip(i as int),
                ));
            }
            i = i + 1;
        }
        assert(list.skip(i as int) =~= Seq::<(Seq<char>, Seq<u8>)>::empty());
        assert(out@ =~= snapshot_bytes(list));
        out
    }

    /// Takes in a change on the retained keyspace; false for a key outside it.
    pub fn apply_sample(&mut self, key: &str, scope: &str, sample: Sample) -> (r: bool)
        requires
            old(self).wf(),
        ensures
            final(self).wf(),
            final(self).scans() == old(self).scans(),
            r == (topic::retained_topic(key@, scope@) is Some),
            final(self).answerable() == (if r {
                Set::empty()
            } else {
                old(self).answerable()
            }),
            final(self)@ == applied(old(self)@, key@, scope@, sample@),
            final(self).dirty() == (r || old(self).dirty()),
    {
        match retained_keyexpr_to_topic(key, scope) {
            Some(t) => {
                match sample {
                    Sample::Put(value) => self.insert(t.to_owned(), value),
                    Sample::Delete => self.remove(t),
                }
                true
            },
            None => false,
        }
    }

    /// What a node that joins late is answered: every entry under its bus key.
    pub fn replies(&self, scope: &str) -> (r: Vec<(String, Vec<u8>)>)
        requires
            self.wf(),
        ensures
            exists|list: Seq<(Seq<char>, Seq<u8>)>|
                lists(self@, list) && codec::pairs(r@) == #[trigger] keyed(list, scope@),
    {
        let items = self.snapshot();
        let ghost list = codec::pairs(items@);
        let mut out: Vec<(String, Vec<u8>)> = Vec::new();
        let mut i: usize = 0;
        while i < items.len()
            invariant
                i <= items@.len(),
                list == codec::pairs(items@),
                out@.len() == i,
                forall|k: int|
                    0 <= k < i ==> (#[trigger] out@[k]).0@ == topic::internal_key(
                        RETAINED_CHUNK@,
                        list[k].0,
                        scope@,
                    ) && out@[k].1@ == list[k].1,
            decreases items.len() - i,
        {
            let key = retained_keyexpr(items[i].0.as_str(), scope);
            let value = copy_range(items[i].1.as_slice(), 0, items[i].1.len());
            assert(value@ =~= items@[i as int].1@);
            out.push((key, value));
            i = i + 1;
        }
        assert(codec::pairs(out@) =~= keyed(list, scope@));
        out
    }
}

impl Default for RetainedStore {
    fn default() -> (r: Self)
        ensures
            r.wf(),
            r@ == Map::<Seq<char>, Seq<u8>>::empty(),
            !r.dirty(),
            r.scans() == 0,
            r.answerable() == Set::<Seq<char>>::empty(),
    {
        RetainedStore::new()
    }
}

/// A change on the retained keyspace.
pub enum Sample {
    /// A retained value was written.
    Put(Vec<u8>),
    /// A retained value was cleared.
    Delete,
}

impl View for Sample {
    type V = Option<Seq<u8>>;

    /// The value written; `None` for a clear.
    open spec fn view(&self) -> Option<Seq<u8>> {
        match self {
            Sample::Put(value) => Some(value@),
            Sample::Delete => None,
        }
    }
}

/// A store after a change on a key.
pub open spec fn applied(
    store: Map<Seq<char>, Seq<u8>>,
    key: Seq<char>,
    scope: Seq<char>,
    sample: Option<Seq<u8>>,
) -> Map<Seq<char>, Seq<u8>> {
    match topic::retained_topic(key, scope) {
        Some(t) => match sample {
            Some(value) => store.insert(t, value),
            None => store.remove(t),
        },
        None => store,
    }
}

/// Entries under their bus keys.
pub open spec fn keyed(list: Seq<(Seq<char>, Seq<u8>)>, scope: Seq<char>) -> Seq<
    (Seq<char>, Seq<u8>),
> {
    list.map_values(
        |e: (Seq<char>, Seq<u8>)| (topic::internal_key(RETAINED_CHUNK@, e.0, scope), e.1),
    )
}

/// What a snapshot file begins with.
pub const SNAPSHOT_MAGIC: &'static str = "ENTMOOT-RET1\n";

pub open spec fn snapshot_magic() -> Seq<u8> {
    vstd::utf8::encode_utf8(SNAPSHOT_MAGIC@)
}

/// A whole snapshot file.
pub open spec fn snapshot_bytes(list: Seq<(Seq<char>, Seq<u8>)>) -> Seq<u8> {
    snapshot_magic() + codec::pairs_bytes(list)
}

/// Why a snapshot cannot be read.
#[derive(Debug, Clone, Copy, PartialEq, Eq, Structural)]
pub enum SnapshotError {
    /// It does not begin as a snapshot does.
    NotASnapshot,
    /// It ends in the middle of an entry.
    Truncated,
    /// A topic is not UTF-8.
    BadTopic,
}

/// A store after reading entries, and how many there were or what stopped the reading.
pub open spec fn loaded_entries(
    store: Map<Seq<char>, Seq<u8>>,
    s: Seq<u8>,
    count: nat,
) -> (Map<Seq<char>, Seq<u8>>, Result<nat, SnapshotError>)
    decreases s.len(),
{
    if s.len() == 0 {
        (store, Ok(count))
    } else {
        match codec::first_chunk(s) {
            None => (store, Err(SnapshotError::Truncated)),
            Some((t, after_topic)) => match codec::first_chunk(after_topic) {
                None => (store, Err(SnapshotError::Truncated)),
                Some((value, rest)) => if !vstd::utf8::valid_utf8(t) {
                    (store, Err(SnapshotError::BadTopic))
                } else if rest.len() < s.len() {
                    loaded_entries(
                        store.insert(vstd::utf8::decode_utf8(t), value),
                        rest,
                        count + 1,
                    )
                } else {
                    (store, Ok(count))
                },
            },
        }
    }
}

/// A store after reading a whole snapshot file.
pub open spec fn loaded(store: Map<Seq<char>, Seq<u8>>, data: Seq<u8>) -> (
    Map<Seq<char>, Seq<u8>>,
    Result<nat, SnapshotError>,
) {
    match codec::after_magic(data, snapshot_magic()) {
        None => (store, Err(SnapshotError::NotASnapshot)),
        Some(body) => loaded_entries(store, body, 0),
    }
}

pub open spec fn loaded_count(r: Result<usize, SnapshotError>) -> Result<nat, SnapshotError> {
    match r {
        Ok(n) => Ok(n as nat),
        Err(e) => Err(e),
    }
}

/// A store with the entries of a list put in, one after the other.
pub open spec fn with_entries(
    store: Map<Seq<char>, Seq<u8>>,
    list: Seq<(Seq<char>, Seq<u8>)>,
) -> Map<Seq<char>, Seq<u8>>
    decreases list.len(),
{
    if list.len() == 0 {
        store
    } else {
        with_entries(store.insert(list[0].0, list[0].1), list.skip(1))
    }
}

/// Reading one entry.
proof fn lemma_load_step(
    store: Map<Seq<char>, Seq<u8>>,
    s: Seq<u8>,
    t: Seq<u8>,
    value: Seq<u8>,
    rest: Seq<u8>,
    count: nat,
)
    requires
        codec::first_pair(s) == Some((t, value, rest)),
        vstd::utf8::valid_utf8(t),
        rest.len() < s.len(),
    ensures
        loaded_entries(store, s, count) == loaded_entries(
            store.insert(vstd::utf8::decode_utf8(t), value),
            rest,
            count + 1,
        ),
{
}

#[verifier::spinoff_prover]
proof fn lemma_load_entries(
    store: Map<Seq<char>, Seq<u8>>,
    list: Seq<(Seq<char>, Seq<u8>)>,
    count: nat,
)
    requires
        codec::pairs_fit(list),
    ensures
        loaded_entries(store, codec::pairs_bytes(list), count) == (
            with_entries(store, list),
            Ok::<nat, SnapshotError>((count + list.len()) as nat),
        ),
    decreases list.len(),
{
    if list.len() == 0 {
        assert(codec::pairs_bytes(list).len() == 0);
    } else {
        let t = vstd::utf8::encode_utf8(list[0].0);
        let tail = list.skip(1);
        let rest = codec::pairs_bytes(tail);
        let next = store.insert(list[0].0, list[0].1);
        codec::lemma_first_pair(list);
        lemma_load_step(store, codec::pairs_bytes(list), t, list[0].1, rest, count);
        lemma_load_entries(next, tail, count + 1);
        assert(with_entries(store, list) == with_entries(next, tail));
    }
}

proof fn lemma_with_entries(
    store: Map<Seq<char>, Seq<u8>>,
    list: Seq<(Seq<char>, Seq<u8>)>,
    t: Seq<char>,
)
    requires
        forall|i: int, j: int| 0 <= i < j < list.len() ==> (#[trigger] list[i]).0 != (#[trigger] list[j]).0,
    ensures
        with_entries(store, list).dom().contains(t) <==> (store.dom().contains(t) || exists|i: int|
            0 <= i < list.len() && (#[trigger] list[i]).0 == t),
        forall|i: int|
            0 <= i < list.len() && (#[trigger] list[i]).0 == t ==> with_entries(store, list)[t]
                == list[i].1,
        (forall|i: int| 0 <= i < list.len() ==> (#[trigger] list[i]).0 != t) ==> with_entries(
            store,
            list,
        )[t] == store[t],
    decreases list.len(),
{
    if list.len() > 0 {
        let rest = list.skip(1);
        assert forall|i: int, j: int| 0 <= i < j < rest.len() implies (#[trigger] rest[i]).0 != (
        #[trigger] rest[j]).0 by {
            assert(rest[i] == list[i + 1] && rest[j] == list[j + 1]);
        }
        lemma_with_entries(store.insert(list[0].0, list[0].1), rest, t);
        assert forall|i: int| 0 <= i < list.len() && (#[trigger] list[i]).0 == t implies with_entries(
            store,
            list,
        )[t] == list[i].1 by {
            if i > 0 {
                assert(rest[i - 1] == list[i]);
            } else {
                assert forall|k: int| 0 <= k < rest.len() implies (#[trigger] rest[k]).0 != t by {
                    assert(rest[k] == list[k + 1]);
                }
            }
        }
        if exists|i: int| 0 <= i < list.len() && (#[trigger] list[i]).0 == t {
            let i = choose|i: int| 0 <= i < list.len() && (#[trigger] list[i]).0 == t;
            if i > 0 {
                assert(rest[i - 1].0 == t);
            }
        }
        if exists|i: int| 0 <= i < rest.len() && (#[trigger] rest[i]).0 == t {
            let i = choose|i: int| 0 <= i < rest.len() && (#[trigger] rest[i]).0 == t;
            assert(list[i + 1].0 == t);
        }
        assert(list[0] == list[0]);
        if forall|i: int| 0 <= i < list.len() ==> (#[trigger] list[i]).0 != t {
            assert forall|k: int| 0 <= k < rest.len() implies (#[trigger] rest[k]).0 != t by {
                assert(rest[k] == list[k + 1]);
            }
            assert(list[0].0 != t);
        }
    }
}

/// Entries put into a store take the place of what it had for their topics; the rest of
/// it stays.
proof fn lemma_entries_merge(
    before: Map<Seq<char>, Seq<u8>>,
    store: Map<Seq<char>, Seq<u8>>,
    list: Seq<(Seq<char>, Seq<u8>)>,
)
    requires
        lists(store, list),
    ensures
        with_entries(before, list) == before.union_prefer_right(store),
{
    let built = with_entries(before, list);
    assert forall|t: Seq<char>| #[trigger]
        built.dom().contains(t) == (before.dom().contains(t) || store.dom().contains(t)) && (
    store.dom().contains(t) ==> built[t] == store[t]) && (!store.dom().contains(t) ==> built[t]
        == before[t]) by {
        lemma_with_entries(before, list, t);
        if exists|i: int| 0 <= i < list.len() && (#[trigger] list[i]).0 == t {
            let i = choose|i: int| 0 <= i < list.len() && (#[trigger] list[i]).0 == t;
            assert(store.contains_pair(list[i].0, list[i].1));
        }
    }
    assert(built =~= before.union_prefer_right(store));
}

/// A snapshot read into a store gives each topic that it holds its payload in the snapshot;
/// every other topic keeps its own.
pub proof fn law_snapshot_round_trip(
    before: Map<Seq<char>, Seq<u8>>,
    store: Map<Seq<char>, Seq<u8>>,
    list: Seq<(Seq<char>, Seq<u8>)>,
)
    requires
        lists(store, list),
        codec::pairs_fit(list),
    ensures
        loaded(before, snapshot_bytes(list)) == (
            before.union_prefer_right(store),
            Ok::<nat, SnapshotError>(list.len()),
        ),
{
    let data = snapshot_bytes(list);
    assert(data.take(snapshot_magic().len() as int) =~= snapshot_magic());
    assert(data.skip(snapshot_magic().len() as int) =~= codec::pairs_bytes(list));
    lemma_load_entries(before, list, 0);
    lemma_entries_merge(before, store, list);
}

/// A snapshot read into an empty store gives back the store that it was made of.
pub proof fn law_snapshot_restores_the_store(
    store: Map<Seq<char>, Seq<u8>>,
    list: Seq<(Seq<char>, Seq<u8>)>,
)
    requires
        lists(store, list),
        codec::pairs_fit(list),
    ensures
        loaded(Map::empty(), snapshot_bytes(list)) == (
            store,
            Ok::<nat, SnapshotError>(list.len()),
        ),
{
    law_snapshot_round_trip(Map::empty(), store, list);
    assert(Map::<Seq<char>, Seq<u8>>::empty().union_prefer_right(store) =~= store);
}

/// A store with changes applied one after the other.
pub open spec fn applied_all(
    store: Map<Seq<char>, Seq<u8>>,
    puts: Seq<(Seq<char>, Seq<u8>)>,
    scope: Seq<char>,
) -> Map<Seq<char>, Seq<u8>>
    decreases puts.len(),
{
    if puts.len() == 0 {
        store
    } else {
        applied_all(applied(store, puts[0].0, scope, Some(puts[0].1)), puts.skip(1), scope)
    }
}

proof fn lemma_apply_keyed(
    store: Map<Seq<char>, Seq<u8>>,
    list: Seq<(Seq<char>, Seq<u8>)>,
    scope: Seq<char>,
)
    ensures
        applied_all(store, keyed(list, scope), scope) == with_entries(store, list),
    decreases list.len(),
{
    if list.len() > 0 {
        topic_laws::law_retained_round_trip(list[0].0, scope);
        assert(keyed(list, scope).skip(1) =~= keyed(list.skip(1), scope));
        assert(keyed(list, scope)[0] == (
            topic::internal_key(RETAINED_CHUNK@, list[0].0, scope),
            list[0].1,
        ));
        lemma_apply_keyed(store.insert(list[0].0, list[0].1), list.skip(1), scope);
    }
}

/// A node that joins late and takes in the replies of another has the other's value for
/// every topic that the other retains; what else it had stays.
pub proof fn law_late_joiner_catches_up(
    before: Map<Seq<char>, Seq<u8>>,
    store: Map<Seq<char>, Seq<u8>>,
    list: Seq<(Seq<char>, Seq<u8>)>,
    scope: Seq<char>,
)
    requires
        lists(store, list),
    ensures
        applied_all(before, keyed(list, scope), scope) == before.union_prefer_right(store),
{
    lemma_apply_keyed(before, list, scope);
    lemma_entries_merge(before, store, list);
}

/// A retained value written under a topic's key is found by every filter that matches
/// the topic, with its payload and time, until it is cleared.
pub proof fn law_retained_value_is_found(
    store: Map<Seq<char>, Seq<u8>>,
    name: Seq<char>,
    scope: Seq<char>,
    filter: Seq<char>,
    payload: Seq<u8>,
    written_at: u64,
    list: Seq<(Seq<char>, Seq<u8>, u64)>,
)
    requires
        topic::filter_matches(filter, name),
        is_matching(
            applied(
                store,
                topic::internal_key(RETAINED_CHUNK@, name, scope),
                scope,
                Some(envelope(payload, written_at)),
            ),
            filter,
            list,
        ),
    ensures
        list.contains((name, payload, written_at)),
{
    topic_laws::law_retained_round_trip(name, scope);
    law_envelope_round_trip(payload, written_at);
    let key = topic::internal_key(RETAINED_CHUNK@, name, scope);
    let next = applied(store, key, scope, Some(envelope(payload, written_at)));
    assert(next.dom().contains(name));
    let i = choose|i: int| 0 <= i < list.len() && (#[trigger] list[i]).0 == name;
    assert(list[i] == (name, payload, written_at));
}

/// A cleared retained value is found by no filter.
pub proof fn law_cleared_value_is_gone(
    store: Map<Seq<char>, Seq<u8>>,
    name: Seq<char>,
    scope: Seq<char>,
    filter: Seq<char>,
    list: Seq<(Seq<char>, Seq<u8>, u64)>,
)
    requires
        is_matching(
            applied(store, topic::internal_key(RETAINED_CHUNK@, name, scope), scope, None),
            filter,
            list,
        ),
    ensures
        forall|i: int| 0 <= i < list.len() ==> (#[trigger] list[i]).0 != name,
{
    topic_laws::law_retained_round_trip(name, scope);
}

/// Two scans of the same store find the same messages, whatever their order; so an
/// answer out of the cache is as good as a scan.
pub proof fn law_matching_is_determined(
    store: Map<Seq<char>, Seq<u8>>,
    filter: Seq<char>,
    a: Seq<(Seq<char>, Seq<u8>, u64)>,
    b: Seq<(Seq<char>, Seq<u8>, u64)>,
)
    requires
        is_matching(store, filter, a),
        is_matching(store, filter, b),
    ensures
        forall|m: (Seq<char>, Seq<u8>, u64)| #[trigger] a.contains(m) <==> b.contains(m),
{
    assert forall|m: (Seq<char>, Seq<u8>, u64)| #[trigger] a.contains(m) implies b.contains(m) by {
        let i = choose|i: int| 0 <= i < a.len() && a[i] == m;
        let j = choose|j: int| 0 <= j < b.len() && (#[trigger] b[j]).0 == m.0;
        assert(b[j] == m);
    }
    assert forall|m: (Seq<char>, Seq<u8>, u64)| b.contains(m) implies #[trigger] a.contains(m) by {
        let i = choose|i: int| 0 <= i < b.len() && b[i] == m;
        let j = choose|j: int| 0 <= j < a.len() && (#[trigger] a[j]).0 == m.0;
        assert(a[j] == m);
    }
}

} // verus!
