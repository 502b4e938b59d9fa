//! A map keyed by strings that can be gone through: a list of entries, and a hash map with
//! the place of each key in it.

use crate::prefix;
use crate::text;
use vstd::hash_map::StringHashMap;
use vstd::prelude::*;
use vstd::string::*;

verus! {

/// A map from strings to `V`; its view is keyed by character sequences.
pub struct StrMap<V> {
    keys: Vec<String>,
    values: Vec<V>,
    places: StringHashMap<usize>,
}

impl<V> View for StrMap<V> {
    type V = Map<Seq<char>, V>;

    closed spec fn view(&self) -> Map<Seq<char>, V> {
        Map::new(
            |k: Seq<char>| text::texts(self.keys@).contains(k),
            |k: Seq<char>| self.values@[text::texts(self.keys@).index_of(k)],
        )
    }
}

impl<V> StrMap<V> {
    /// Every key occurs once, has one value, and is found at its place.
    pub closed spec fn wf(&self) -> bool {
        &&& self.keys@.len() == self.values@.len()
        &&& text::texts(self.keys@).no_duplicates()
        &&& self.placed()
    }

    /// The places are those of the keys in the list.
    spec fn placed(&self) -> bool {
        &&& forall|i: int|
            0 <= i < self.keys@.len() ==> self.places@.contains_pair(
                (#[trigger] self.keys@[i])@,
                i as usize,
            )
        &&& forall|k: Seq<char>| #[trigger]
            self.places@.dom().contains(k) ==> self.places@[k] < self.keys@.len()
                && self.keys@[self.places@[k] as int]@ == k
    }

    /// The keys in the order of the list.
    pub closed spec fn keys(&self) -> Seq<Seq<char>> {
        text::texts(self.keys@)
    }

    pub fn new() -> (r: Self)
        ensures
            r.wf(),
            r@ == Map::<Seq<char>, V>::empty(),
            r.keys() == Seq::<Seq<char>>::empty(),
    {
        let r = StrMap { keys: Vec::new(), values: Vec::new(), places: StringHashMap::new() };
        assert(text::texts(r.keys@) =~= Seq::empty());
        assert(r@ =~= Map::<Seq<char>, V>::empty());
        r
    }

    /// The keys are those of the view, each once.
    pub proof fn lemma_keys(&self)
        requires
            self.wf(),
        ensures
            self.keys().no_duplicates(),
            self@.dom().finite(),
            self@.len() == self.keys().len(),
            forall|k: Seq<char>| #[trigger] self@.dom().contains(k) == self.keys().contains(k),
            forall|i: int|
                0 <= i < self.keys().len() ==> self@.dom().contains(#[trigger] self.keys()[i]),
    {
        self.keys().unique_seq_to_set();
        assert(self@.dom() =~= self.keys().to_set());
        assert forall|i: int| 0 <= i < self.keys().len() implies self@.dom().contains(
            #[trigger] self.keys()[i],
        ) by {
            assert(self.keys().contains(self.keys()[i]));
        }
    }

    proof fn lemma_at(&self, i: int)
        requires
            self.wf(),
            0 <= i < self.keys@.len(),
        ensures
            self@.dom().contains(self.keys@[i]@),
            self@[self.keys@[i]@] == self.values@[i],
    {
        let ks = text::texts(self.keys@);
        assert(ks[i] == self.keys@[i]@);
        assert(ks.contains(ks[i]));
        assert(ks.index_of(ks[i]) == i);
    }

    pub fn len(&self) -> (n: usize)
        requires
            self.wf(),
        ensures
            n == self@.len(),
            n == self.keys().len(),
    {
        proof {
            self.lemma_keys();
        }
        self.keys.len()
    }

    /// The position of a key.
    fn find(&self, key: &str) -> (r: Option<usize>)
        requires
            self.wf(),
        ensures
            match r {
                Some(i) => i < self.keys@.len() && self.keys@[i as int]@ == key@
                    && self@.dom().contains(key@) && self@[key@] == self.values@[i as int],
                None => !self@.dom().contains(key@),
            },
    {
        match self.places.get(key) {
            Some(i) => {
                proof {
                    self.lemma_at(*i as int);
                }
                Some(*i)
            },
            None => {
                assert(!text::texts(self.keys@).contains(key@)) by {
                    if text::texts(self.keys@).contains(key@) {
                        let k = text::texts(self.keys@).index_of(key@);
                        assert(self.keys@[k]@ == key@);
                    }
                }
                None
            },
        }
    }

    pub fn contains(&self, key: &str) -> (r: bool)
        requires
            self.wf(),
        ensures
            r == self@.dom().contains(key@),
    {
        self.find(key).is_some()
    }

    pub fn get(&self, key: &str) -> (r: Option<&V>)
        requires
            self.wf(),
        ensures
            match r {
                Some(v) => self@.dom().contains(key@) && *v == self@[key@],
                None => !self@.dom().contains(key@),
            },
    {
        match self.find(key) {
            Some(i) => Some(&self.values[i]),
            None => None,
        }
    }

    /// The `i`-th entry of the list.
    pub fn entry(&self, i: usize) -> (r: (&String, &V))
        requires
            self.wf(),
            i < self.keys().len(),
        ensures
            r.0@ == self.keys()[i as int],
            self@.dom().contains(r.0@),
            *r.1 == self@[r.0@],
    {
        proof {
            self.lemma_at(i as int);
        }
        (&self.keys[i], &self.values[i])
    }

    /// Takes a key out; the last one of the list takes its place.
    pub fn remove(&mut self, key: &str) -> (r: Option<V>)
        requires
            old(self).wf(),
        ensures
            final(self).wf(),
            final(self)@ == old(self)@.remove(key@),
            match r {
                Some(v) => old(self)@.dom().contains(key@) && v == old(self)@[key@],
                None => !old(self)@.dom().contains(key@) && *final(self) == *old(self),
            },
    {
        match self.find(key) {
            Some(i) => {
                let ghost before = *self;
                let last: usize = self.keys.len() - 1;
                self.keys.swap_remove(i);
                let v = self.values.swap_remove(i);
                self.places.remove(key);
                if i < last {
                    let moved = self.keys[i].clone();
                    self.places.insert(moved, i);
                }
                proof {
                    let bk = text::texts(before.keys@);
                    let ak = text::texts(self.keys@);
                    // Where an entry stood before.
                    let from = |j: int| if j == i { last as int } else { j };
                    assert forall|j: int| 0 <= j < ak.len() implies (#[trigger] ak[j]) == bk[from(j)]
                        && self.values@[j] == before.values@[from(j)] by {}
                    assert(ak.no_duplicates()) by {
                        assert forall|a: int, b: int|
                            0 <= a < ak.len() && 0 <= b < ak.len() && a != b implies ak[a] != ak[b] by {
                            assert(bk[from(a)] != bk[from(b)]);
                        }
                    }
                    assert(bk[i as int] == key@);
                    assert forall|k: Seq<char>| #[trigger] self@.dom().contains(k)
                        == before@.remove(key@).dom().contains(k) by {
                        if ak.contains(k) {
                            let j = ak.index_of(k);
                            assert(bk[from(j)] == k);
                        }
                        if bk.contains(k) && k != key@ {
                            let j = bk.index_of(k);
                            let j2 = if j == last { i as int } else { j };
                            assert(ak[j2] == k);
                        }
                    }
                    assert forall|k: Seq<char>| #[trigger]
                        self@.dom().contains(k) implies self@[k] == before@.remove(key@)[k] by {
                        let j = ak.index_of(k);
                        assert(ak[j] == k);
                        before.lemma_at(from(j));
                    }
                    assert(self@ =~= before@.remove(key@));
                    assert(self.placed()) by {
                        assert forall|j: int| 0 <= j < self.keys@.len() implies self.places@.contains_pair(
                            (#[trigger] self.keys@[j])@,
                            j as usize,
                        ) by {
                            assert(ak[j] == bk[from(j)]);
                            assert(before.places@.contains_pair(
                                before.keys@[from(j)]@,
                                from(j) as usize,
                            ));
                            assert(bk[from(j)] != bk[i as int]);
                            assert(j != i && i < last ==> ak[j] != ak[i as int]);
                        }
                        assert forall|k: Seq<char>| #[trigger]
                            self.places@.dom().contains(k) implies self.places@[k] < self.keys@.len()
                            && self.keys@[self.places@[k] as int]@ == k by {
                            if !(i < last && k == self.keys@[i as int]@) {
                                assert(before.places@.dom().contains(k));
                                let p = before.places@[k];
                                assert(before.keys@[p as int]@ == k);
                                assert(p != i);
                                if p == last {
                                    assert(i < last);
                                    assert(self.keys@[i as int]@ == k);
                                }
                                assert(from(p as int) == p);
                            }
                        }
                    }
                }
                Some(v)
            },
            None => {
                assert(self@.remove(key@) =~= self@);
                None
            },
        }
    }

    /// Binds a key to a value, in place of the one it had, which is handed back.
    pub fn insert(&mut self, key: String, value: V) -> (r: Option<V>)
        requires
            old(self).wf(),
        ensures
            final(self).wf(),
            final(self)@ == old(self)@.insert(key@, value),
            match r {
                Some(v) => old(self)@.dom().contains(key@) && v == old(self)@[key@],
                None => !old(self)@.dom().contains(key@),
            },
            !old(self)@.dom().contains(key@) ==> final(self).keys() == old(self).keys().push(key@),
    {
        let ghost start = *self;
        let previous = self.remove(key.as_str());
        let ghost before = *self;
        let ghost k0 = key@;
        self.places.insert(key.clone(), self.keys.len());
        self.keys.push(key);
        self.values.push(value);
        proof {
            let bk = text::texts(before.keys@);
            let ak = text::texts(self.keys@);
            assert(ak =~= bk.push(k0));
            assert(!bk.contains(k0)) by {
                assert(!before@.dom().contains(k0));
            }
            assert(ak.no_duplicates());
            assert forall|k: Seq<char>| #[trigger] self@.dom().contains(k) == before@.insert(
                k0,
                value,
            ).dom().contains(k) by {
                if bk.contains(k) {
                    assert(ak[bk.index_of(k)] == k);
                }
                assert(ak[bk.len() as int] == k0);
            }
            assert forall|k: Seq<char>| #[trigger] self@.dom().contains(k) implies self@[k]
                == before@.insert(k0, value)[k] by {
                let j = ak.index_of(k);
                if k == k0 {
                    assert(ak[bk.len() as int] == k0);
                    assert(j == bk.len());
                } else {
                    assert(bk[j] == k);
                    before.lemma_at(j);
                }
            }
            assert(self@ =~= before@.insert(k0, value));
            assert(self@ =~= start@.insert(k0, value));
            assert(self.placed()) by {
                assert forall|j: int| 0 <= j < self.keys@.len() implies self.places@.contains_pair(
                    (#[trigger] self.keys@[j])@,
                    j as usize,
                ) by {
                    if j < bk.len() {
                        assert(before.keys@[j]@ == bk[j]);
                        assert(bk.contains(bk[j]));
                    }
                }
                assert forall|k: Seq<char>| #[trigger] self.places@.dom().contains(k) implies self.places@[k]
                    < self.keys@.len() && self.keys@[self.places@[k] as int]@ == k by {
                    if k != k0 {
                        assert(before.places@.dom().contains(k));
                    }
                }
            }
        }
        previous
    }

    /// Takes out every key of a list.
    pub fn remove_all(&mut self, keys: &Vec<String>)
        requires
            old(self).wf(),
        ensures
            final(self).wf(),
            forall|k: Seq<char>| #[trigger]
                final(self)@.dom().contains(k) == (old(self)@.dom().contains(k) && !text::texts(
                    keys@,
                ).contains(k)),
            forall|k: Seq<char>|
                final(self)@.dom().contains(k) ==> #[trigger] final(self)@[k] == old(self)@[k],
    {
        let mut i: usize = 0;
        while i < keys.len()
            invariant
                i <= keys@.len(),
                self.wf(),
                forall|k: Seq<char>| #[trigger]
                    self@.dom().contains(k) == (old(self)@.dom().contains(k) && !text::texts(
                        keys@,
                    ).take(i as int).contains(k)),
                forall|k: Seq<char>|
                    self@.dom().contains(k) ==> #[trigger] self@[k] == old(self)@[k],
            decreases keys.len() - i,
        {
            let ghost before = self@;
            self.remove(keys[i].as_str());
            proof {
                let all = text::texts(keys@);
                prefix::lemma_take_next(all, i as int);
            }
            i = i + 1;
        }
        assert(text::texts(keys@).take(i as int) =~= text::texts(keys@));
    }
}

} // verus!
