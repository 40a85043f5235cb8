//! A collection of study entries keyed by their identifier.
use vstd::hash_map::StringHashMap;
use vstd::prelude::*;

verus! {

/// Entries keyed by identifier. Besides the map it keeps the list of its keys,
/// each once, so that the entries can be walked.
#[verifier::reject_recursive_types(V)]
pub struct EntryMap<V> {
    keys: Vec<String>,
    map: StringHashMap<V>,
}

/// The texts of a list of strings.
pub open spec fn texts(v: Seq<String>) -> Seq<Seq<char>> {
    v.map_values(|s: String| s@)
}

impl<V: View> View for EntryMap<V> {
    type V = Map<Seq<char>, V::V>;

    closed spec fn view(&self) -> Map<Seq<char>, V::V> {
        self.map@.map_values(|v: V| v@)
    }
}

impl<V> EntryMap<V> {
    #[verifier::type_invariant]
    spec fn keys_match(self) -> bool {
        &&& texts(self.keys@).no_duplicates()
        &&& texts(self.keys@).to_set() == self.map@.dom()
    }
}

impl<V: View> EntryMap<V> {
    /// The keys, each once, in the order in which they were first inserted.
    pub closed spec fn key_seq(&self) -> Seq<Seq<char>> {
        texts(self.keys@)
    }

    /// The entries in the order of `key_seq`.
    pub open spec fn value_seq(&self) -> Seq<V::V> {
        self.key_seq().map_values(|k: Seq<char>| self@[k])
    }

    /// An empty collection.
    pub fn new() -> (r: Self)
        ensures
            r@ == Map::<Seq<char>, V::V>::empty(),
            r.key_seq() == Seq::<Seq<char>>::empty(),
    {
        let keys: Vec<String> = Vec::new();
        let map: StringHashMap<V> = StringHashMap::new();
        assert(texts(keys@) =~= Seq::<Seq<char>>::empty());
        assert(texts(keys@).to_set() =~= map@.dom());
        let r = EntryMap { keys, map };
        assert(r@ =~= Map::<Seq<char>, V::V>::empty());
        r
    }

    /// The number of entries.
    pub fn len(&self) -> (r: usize)
        ensures
            r == self@.len(),
    {
        proof {
            use_type_invariant(self);
            self.key_seq().unique_seq_to_set();
            assert(self@.dom() =~= self.map@.dom());
        }
        self.keys.len()
    }

    /// Whether there is no entry.
    pub fn is_empty(&self) -> (r: bool)
        ensures
            r == (self@.len() == 0),
            r == (self@ == Map::<Seq<char>, V::V>::empty()),
    {
        proof {
            use_type_invariant(self);
            self.key_seq().unique_seq_to_set();
            assert(self@.dom() =~= self.map@.dom());
            if self.key_seq().len() == 0 {
                assert(self.key_seq().to_set() =~= Set::<Seq<char>>::empty());
                assert(self@ =~= Map::<Seq<char>, V::V>::empty());
            } else {
                assert(self.key_seq().to_set().contains(self.key_seq()[0]));
            }
        }
        self.keys.len() == 0
    }

    /// Whether an entry has the key `k`.
    pub fn contains_key(&self, k: &str) -> (r: bool)
        ensures
            r == self@.contains_key(k@),
    {
        self.map.contains_key(k)
    }

    /// The entry with key `k`, if any.
    pub fn get(&self, k: &str) -> (r: Option<&V>)
        ensures
            match r {
                Some(v) => self@.contains_key(k@) && v@ == self@[k@],
                None => !self@.contains_key(k@),
            },
    {
        self.map.get(k)
    }

    /// The keys, each once, in the order of `key_seq`.
    pub fn keys(&self) -> (r: &Vec<String>)
        ensures
            texts(r@) == self.key_seq(),
            self.key_seq().no_duplicates(),
            self.key_seq().to_set() == self@.dom(),
            self.key_seq().len() == self@.len(),
            forall|i: int|
                0 <= i < self.key_seq().len() ==> self@.contains_key(#[trigger] self.key_seq()[i]),
    {
        proof {
            use_type_invariant(self);
            self.key_seq().unique_seq_to_set();
            assert(self@.dom() =~= self.map@.dom());
            assert forall|i: int| 0 <= i < self.key_seq().len() implies self@.contains_key(
                #[trigger] self.key_seq()[i],
            ) by {
                assert(self.key_seq().to_set().contains(self.key_seq()[i]));
            }
        }
        &self.keys
    }

    /// Puts `v` under `k`, replacing an entry with that key.
    pub fn insert(&mut self, k: String, v: V)
        ensures
            final(self)@ == old(self)@.insert(k@, v@),
            old(self)@.contains_key(k@) ==> final(self).key_seq() == old(self).key_seq(),
            !old(self)@.contains_key(k@) ==> final(self).key_seq() == old(self).key_seq().push(k@),
    {
        let mut taken = EntryMap::new();
        std::mem::swap(self, &mut taken);
        proof {
            use_type_invariant(&taken);
        }
        let EntryMap { mut keys, mut map } = taken;
        let ghost old_map = map@;
        let ghost old_keys = texts(keys@);
        let present = map.contains_key(k.as_str());
        if !present {
            let kc = k.clone();
            keys.push(kc);
            proof {
                assert(texts(keys@) =~= old_keys.push(k@));
                assert(!old_keys.contains(k@)) by {
                    if old_keys.contains(k@) {
                        assert(old_keys.to_set().contains(k@));
                    }
                }
                old_keys.lemma_push_to_set_commute(k@);
                assert(texts(keys@).to_set() =~= old_map.insert(k@, v).dom());
            }
        } else {
            assert(old_map.insert(k@, v).dom() =~= old_map.dom());
        }
        map.insert(k, v);
        assert(texts(keys@).to_set() =~= map@.dom());
        *self = EntryMap { keys, map };
        assert(self@ =~= old(self)@.insert(k@, v@));
    }

    /// Removes the entry with key `k`, if any.
    pub fn remove(&mut self, k: &str)
        ensures
            final(self)@ == old(self)@.remove(k@),
    {
        let mut taken = EntryMap::new();
        std::mem::swap(self, &mut taken);
        proof {
            use_type_invariant(&taken);
        }
        let EntryMap { mut keys, mut map } = taken;
        let ghost old_map = map@;
        let ghost old_keys = texts(keys@);
        if map.contains_key(k) {
            let wanted = k.to_owned();
            let mut i: usize = 0;
            assert(old_keys.to_set().contains(k@));
            while i < keys.len() && !(keys[i] == wanted)
                invariant
                    i <= keys@.len(),
                    old_keys == texts(keys@),
                    wanted@ == k@,
                    old_keys.contains(k@),
                    forall|m: int| 0 <= m < i ==> old_keys[m] != k@,
                decreases keys.len() - i,
            {
                i = i + 1;
            }
            assert(i < keys@.len());
            let ghost found = i as int;
            assert(old_keys[found] == k@);
            keys.remove(i);
            proof {
                old_keys.remove_ensures(found);
                let nk = texts(keys@);
                assert(nk =~= old_keys.remove(found));
                assert forall|a: int, b: int| 0 <= a < b < nk.len() implies nk[a] != nk[b] by {
                    let oa = if a < found { a } else { a + 1 };
                    let ob = if b < found { b } else { b + 1 };
                    assert(nk[a] == old_keys[oa]);
                    assert(nk[b] == old_keys[ob]);
                }
                assert forall|x: Seq<char>| nk.contains(x) implies old_map.remove(k@).dom().contains(x) by {
                    let m = choose|m: int| 0 <= m < nk.len() && nk[m] == x;
                    let om = if m < found { m } else { m + 1 };
                    assert(old_keys[om] == x);
                    assert(om != found);
                    assert(old_keys[om] != old_keys[found]);
                    assert(old_keys.to_set().contains(x));
                }
                assert forall|x: Seq<char>| old_map.remove(k@).dom().contains(x) implies nk.contains(x) by {
                    assert(old_keys.to_set().contains(x));
                    let m = choose|m: int| 0 <= m < old_keys.len() && old_keys[m] == x;
                    if m < found {
                        assert(nk[m] == x);
                    } else if m > found {
                        assert(nk[m - 1] == x);
                    } else {
                        assert(x == k@);
                    }
                }
                assert(nk.to_set() =~= old_map.remove(k@).dom());
            }
        } else {
            assert(old_map.remove(k@) =~= old_map);
        }
        map.remove(k);
        assert(map@ =~= old_map.remove(k@));
        *self = EntryMap { keys, map };
        assert(self@ =~= old(self)@.remove(k@));
    }

    /// The entries of both collections; where both have a key, the entry of
    /// `other` is kept.
    pub fn union_prefer_right(self, other: Self) -> (r: Self)
        ensures
            r@ == self@.union_prefer_right(other@),
    {
        proof {
            use_type_invariant(&self);
            use_type_invariant(&other);
        }
        let EntryMap { mut keys, mut map } = self;
        let EntryMap { keys: other_keys, map: other_map } = other;
        let ghost left = map@;
        let ghost right = other_map@;
        let mut i: usize = 0;
        while i < other_keys.len()
            invariant
                i <= other_keys@.len(),
                map@ == left,
                texts(other_keys@).no_duplicates(),
                texts(other_keys@).to_set() == right.dom(),
                texts(keys@).no_duplicates(),
                texts(keys@).to_set() == left.dom().union(texts(other_keys@).take(i as int).to_set()),
            decreases other_keys.len() - i,
        {
            let ghost before = texts(keys@);
            let ghost ki = texts(other_keys@)[i as int];
            proof {
                assert(texts(other_keys@).take(i + 1) =~= texts(other_keys@).take(i as int).push(ki));
            }
            if !map.contains_key(other_keys[i].as_str()) {
                let kc = other_keys[i].clone();
                keys.push(kc);
                proof {
                    assert(texts(keys@) =~= before.push(ki));
                    before.lemma_push_to_set_commute(ki);
                    texts(other_keys@).take(i as int).lemma_push_to_set_commute(ki);
                    assert(!before.contains(ki)) by {
                        if before.contains(ki) {
                            assert(before.to_set().contains(ki));
                            assert(!left.dom().contains(ki));
                            let m = choose|m: int| 0 <= m < i && texts(other_keys@)[m] == ki;
                            assert(texts(other_keys@)[m] == texts(other_keys@)[i as int]);
                        }
                    }
                    assert(texts(keys@).to_set() =~= left.dom().union(
                        texts(other_keys@).take(i + 1).to_set(),
                    ));
                }
            } else {
                proof {
                    assert(texts(keys@).to_set() =~= left.dom().union(
                        texts(other_keys@).take(i + 1).to_set(),
                    ));
                }
            }
            i = i + 1;
        }
        map.union_prefer_right(other_map);
        proof {
            assert(texts(other_keys@).take(i as int) =~= texts(other_keys@));
            assert(texts(keys@).to_set() =~= map@.dom());
        }
        let r = EntryMap { keys, map };
        assert(r@ =~= left.map_values(|v: V| v@).union_prefer_right(right.map_values(|v: V| v@)));
        r
    }
}

} // verus!
