use vstd::prelude::*;

use crate::addr::{copy_addrs, IpAddress};

verus! {

/// One cache entry: a hostname and the ordered address list resolved for it,
/// kept verbatim in the order the resolver produced.
pub struct CacheEntry {
    pub key: String,
    pub addrs: Vec<IpAddress>,
}

/// Does the modelled cache hold an entry for key `k`?
pub open spec fn has_key(s: Seq<(Seq<char>, Seq<IpAddress>)>, k: Seq<char>) -> bool {
    exists|i: int| 0 <= i < s.len() && #[trigger] s[i].0 == k
}

/// The position of the entry for key `k` in the modelled cache.
pub open spec fn key_index(s: Seq<(Seq<char>, Seq<IpAddress>)>, k: Seq<char>) -> int {
    choose|i: int| 0 <= i < s.len() && #[trigger] s[i].0 == k
}

/// No two entries share a key.
pub open spec fn distinct_keys(s: Seq<(Seq<char>, Seq<IpAddress>)>) -> bool {
    forall|i: int, j: int| 0 <= i < j < s.len() ==> #[trigger] s[i].0 != #[trigger] s[j].0
}

/// What a recency-refreshing lookup does to the modelled cache: a hit moves
/// the entry to the most-recently-used end, a miss changes nothing.
pub open spec fn model_get(s: Seq<(Seq<char>, Seq<IpAddress>)>, k: Seq<char>) -> Seq<
    (Seq<char>, Seq<IpAddress>),
> {
    if has_key(s, k) {
        let i = key_index(s, k);
        s.remove(i).push((s[i].0, s[i].1))
    } else {
        s
    }
}

/// What an insertion does to the modelled cache. A present key is replaced
/// and refreshed; a fresh key is appended, after evicting the least recently
/// used entry when the cache is full.
pub open spec fn model_insert(
    s: Seq<(Seq<char>, Seq<IpAddress>)>,
    cap: int,
    k: Seq<char>,
    v: Seq<IpAddress>,
) -> Seq<(Seq<char>, Seq<IpAddress>)> {
    if has_key(s, k) {
        s.remove(key_index(s, k)).push((k, v))
    } else if s.len() < cap {
        s.push((k, v))
    } else {
        s.subrange(1, s.len() as int).push((k, v))
    }
}

/// The chosen `key_index` really is a position of `k`.
pub proof fn lemma_key_index(s: Seq<(Seq<char>, Seq<IpAddress>)>, k: Seq<char>)
    requires
        has_key(s, k),
    ensures
        0 <= key_index(s, k) < s.len(),
        s[key_index(s, k)].0 == k,
{
}

/// With distinct keys, `key_index` is the only position of `k`.
pub proof fn lemma_key_index_unique(s: Seq<(Seq<char>, Seq<IpAddress>)>, k: Seq<char>, i: int)
    requires
        distinct_keys(s),
        0 <= i < s.len(),
        s[i].0 == k,
    ensures
        has_key(s, k),
        key_index(s, k) == i,
{
    assert(has_key(s, k));
    lemma_key_index(s, k);
    let j = key_index(s, k);
    if i < j {
        assert(s[i].0 != s[j].0);
    } else if j < i {
        assert(s[j].0 != s[i].0);
    }
}

/// Removing an entry keeps the remaining keys distinct and leaves no entry
/// carrying the removed position's key.
pub proof fn lemma_remove_keeps_distinct(s: Seq<(Seq<char>, Seq<IpAddress>)>, i: int)
    requires
        distinct_keys(s),
        0 <= i < s.len(),
    ensures
        distinct_keys(s.remove(i)),
        !has_key(s.remove(i), s[i].0),
{
    s.remove_ensures(i);
    let t = s.remove(i);
    assert forall|a: int, b: int| 0 <= a < b < t.len() implies #[trigger] t[a].0
        != #[trigger] t[b].0 by {
        let a0 = if a < i { a } else { a + 1 };
        let b0 = if b < i { b } else { b + 1 };
        assert(t[a] == s[a0]);
        assert(t[b] == s[b0]);
        assert(s[a0].0 != s[b0].0);
    }
    assert forall|a: int| 0 <= a < t.len() implies #[trigger] t[a].0 != s[i].0 by {
        let a0 = if a < i { a } else { a + 1 };
        assert(t[a] == s[a0]);
        if a0 < i {
            assert(s[a0].0 != s[i].0);
        } else {
            assert(s[i].0 != s[a0].0);
        }
    }
}

/// Appending an entry whose key is absent keeps the keys distinct.
pub proof fn lemma_push_fresh_distinct(
    s: Seq<(Seq<char>, Seq<IpAddress>)>,
    k: Seq<char>,
    v: Seq<IpAddress>,
)
    requires
        distinct_keys(s),
        !has_key(s, k),
    ensures
        distinct_keys(s.push((k, v))),
{
    let t = s.push((k, v));
    assert forall|a: int, b: int| 0 <= a < b < t.len() implies #[trigger] t[a].0
        != #[trigger] t[b].0 by {
        if b == s.len() {
            assert(t[a] == s[a]);
            assert(s[a].0 != k);
        } else {
            assert(t[a] == s[a]);
            assert(t[b] == s[b]);
        }
    }
}

/// A bounded map from hostname to address list with least-recently-used
/// eviction. Entries are kept in recency order: index 0 is the least
/// recently used, the last index the most recently used.
pub struct LruCache {
    entries: Vec<CacheEntry>,
    capacity: usize,
}

impl View for LruCache {
    type V = Seq<(Seq<char>, Seq<IpAddress>)>;

    closed spec fn view(&self) -> Seq<(Seq<char>, Seq<IpAddress>)> {
        self.entries@.map_values(|e: CacheEntry| (e.key@, e.addrs@))
    }
}

impl LruCache {
    /// The fixed maximum number of entries, set at construction.
    pub closed spec fn cap(self) -> int {
        self.capacity as int
    }

    /// Well-formed: positive capacity, never over capacity, no duplicate keys.
    pub open spec fn wf(self) -> bool {
        &&& self.cap() >= 1
        &&& self@.len() <= self.cap()
        &&& distinct_keys(self@)
    }

    /// An empty cache that will hold at most `capacity` entries.
    pub fn new(capacity: usize) -> (r: LruCache)
        requires
            capacity >= 1,
        ensures
            r.wf(),
            r.cap() == capacity,
            r@ == Seq::<(Seq<char>, Seq<IpAddress>)>::empty(),
    {
        let r = LruCache { entries: Vec::new(), capacity };
        proof {
            assert(r@ =~= Seq::<(Seq<char>, Seq<IpAddress>)>::empty());
        }
        r
    }

    /// The position of `key`'s entry, if the cache holds one.
    fn position_of(&self, key: &String) -> (r: Option<usize>)
        ensures
            match r {
                Some(i) => 0 <= i < self@.len() && self@[i as int].0 == key@,
                None => !has_key(self@, key@),
            },
    {
        let mut i: usize = 0;
        while i < self.entries.len()
            invariant
                0 <= i <= self.entries.len(),
                self@.len() == self.entries@.len(),
                forall|j: int| 0 <= j < i ==> self@[j].0 != key@,
            decreases self.entries@.len() - i,
        {
            assert(self@[i as int] == (self.entries@[i as int].key@, self.entries@[i as int].addrs@));
            if self.entries[i].key == *key {
                return Some(i);
            }
            i = i + 1;
        }
        None
    }

    /// Does the cache currently hold an entry for `key`? Recency unchanged.
    pub fn contains_key(&self, key: &String) -> (r: bool)
        ensures
            r == has_key(self@, key@),
    {
        match self.position_of(key) {
            Some(i) => {
                proof {
                    assert(self@[i as int].0 == key@);
                }
                true
            },
            None => false,
        }
    }

    /// The number of entries currently held.
    pub fn len(&self) -> (r: usize)
        ensures
            r == self@.len(),
    {
        self.entries.len()
    }

    /// The capacity fixed at construction.
    pub fn capacity(&self) -> (r: usize)
        ensures
            r == self.cap(),
    {
        self.capacity
    }

    /// Look up `key`. On a hit the entry becomes most recently used and an
    /// independent copy of its stored address list is returned; a miss
    /// changes nothing.
    pub fn get(&mut self, key: &String) -> (r: Option<Vec<IpAddress>>)
        requires
            old(self).wf(),
        ensures
            final(self).wf(),
            final(self).cap() == old(self).cap(),
            final(self)@ == model_get(old(self)@, key@),
            match r {
                Some(v) => has_key(old(self)@, key@) && v@ == old(self)@[key_index(
                    old(self)@,
                    key@,
                )].1,
                None => !has_key(old(self)@, key@),
            },
    {
        let ghost s = self@;
        match self.position_of(key) {
            Some(i) => {
                proof {
                    lemma_key_index_unique(s, key@, i as int);
                    lemma_remove_keeps_distinct(s, i as int);
                    lemma_push_fresh_distinct(s.remove(i as int), s[i as int].0, s[i as int].1);
                    s.remove_ensures(i as int);
                }
                let entry = self.entries.remove(i);
                let result = copy_addrs(&entry.addrs);
                self.entries.push(entry);
                proof {
                    assert(self@ =~= s.remove(i as int).push((s[i as int].0, s[i as int].1)));
                }
                Some(result)
            },
            None => None,
        }
    }

    /// Insert `key` with `addrs`. An existing entry for `key` is replaced and
    /// refreshed; a fresh key is added as most recently used, evicting the
    /// least recently used entry first when the cache is full. Always
    /// succeeds.
    pub fn insert(&mut self, key: String, addrs: Vec<IpAddress>)
        requires
            old(self).wf(),
        ensures
            final(self).wf(),
            final(self).cap() == old(self).cap(),
            final(self)@ == model_insert(old(self)@, old(self).cap(), key@, addrs@),
    {
        let ghost s = self@;
        let ghost kv = key@;
        let ghost av = addrs@;
        match self.position_of(&key) {
            Some(i) => {
                proof {
                    lemma_key_index_unique(s, kv, i as int);
                    lemma_remove_keeps_distinct(s, i as int);
                }
                self.entries.remove(i);
                proof {
                    assert(self@ =~= s.remove(i as int));
                }
            },
            None => {
                if self.entries.len() >= self.capacity {
                    proof {
                        lemma_remove_keeps_distinct(s, 0);
                        s.remove_ensures(0);
                    }
                    self.entries.remove(0);
                    proof {
                        assert(self@ =~= s.remove(0));
                        assert(s.remove(0) =~= s.subrange(1, s.len() as int));
                        assert(!has_key(self@, kv)) by {
                            if has_key(self@, kv) {
                                let j = key_index(self@, kv);
                                lemma_key_index(self@, kv);
                                assert(self@[j] == s[j + 1]);
                                assert(s[j + 1].0 == kv);
                            }
                        }
                    }
                }
            },
        }
        let ghost t = self@;
        proof {
            assert(distinct_keys(t));
            assert(!has_key(t, kv));
            lemma_push_fresh_distinct(t, kv, av);
        }
        self.entries.push(CacheEntry { key, addrs });
        proof {
            assert(self@ =~= t.push((kv, av)));
        }
    }
}

} // verus!
