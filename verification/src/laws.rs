use vstd::prelude::*;

use crate::addr::IpAddress;
use crate::cache::{
    distinct_keys, has_key, key_index, lemma_key_index, lemma_key_index_unique, model_get,
    model_insert,
};
use crate::dns::counters_after_lookup;

verus! {

/// The modelled cache after inserting each pair of `kvs`, in order.
pub open spec fn model_insert_all(
    s: Seq<(Seq<char>, Seq<IpAddress>)>,
    cap: int,
    kvs: Seq<(Seq<char>, Seq<IpAddress>)>,
) -> Seq<(Seq<char>, Seq<IpAddress>)>
    decreases kvs.len(),
{
    if kvs.len() == 0 {
        s
    } else {
        model_insert_all(model_insert(s, cap, kvs[0].0, kvs[0].1), cap, kvs.drop_first())
    }
}

/// A pair is rebuilt from its components.
proof fn lemma_pair_eta(x: (Seq<char>, Seq<IpAddress>))
    ensures
        x == (x.0, x.1),
{
    assert(x =~= (x.0, x.1));
}

/// One insertion never pushes the cache over capacity.
proof fn lemma_insert_within_capacity(
    s: Seq<(Seq<char>, Seq<IpAddress>)>,
    cap: int,
    k: Seq<char>,
    v: Seq<IpAddress>,
)
    requires
        cap >= 1,
        s.len() <= cap,
    ensures
        model_insert(s, cap, k, v).len() <= cap,
{
    if has_key(s, k) {
        lemma_key_index(s, k);
        s.remove_ensures(key_index(s, k));
    }
}

/// Capacity invariant: whatever sequence of insertions is performed on a
/// cache that is within its capacity, it never comes to hold more than
/// `cap` entries.
pub proof fn lemma_capacity_invariant(
    s: Seq<(Seq<char>, Seq<IpAddress>)>,
    cap: int,
    kvs: Seq<(Seq<char>, Seq<IpAddress>)>,
)
    requires
        cap >= 1,
        s.len() <= cap,
    ensures
        model_insert_all(s, cap, kvs).len() <= cap,
    decreases kvs.len(),
{
    if kvs.len() > 0 {
        let s1 = model_insert(s, cap, kvs[0].0, kvs[0].1);
        lemma_insert_within_capacity(s, cap, kvs[0].0, kvs[0].1);
        lemma_capacity_invariant(s1, cap, kvs.drop_first());
    }
}

/// Inserting keys that are all fresh and pairwise distinct, while room
/// remains, appends them in order and evicts nothing.
proof fn lemma_fill_fresh(
    s: Seq<(Seq<char>, Seq<IpAddress>)>,
    cap: int,
    kvs: Seq<(Seq<char>, Seq<IpAddress>)>,
)
    requires
        distinct_keys(s + kvs),
        s.len() + kvs.len() <= cap,
    ensures
        model_insert_all(s, cap, kvs) == s + kvs,
    decreases kvs.len(),
{
    if kvs.len() == 0 {
        assert(s + kvs =~= s);
    } else {
        let k = kvs[0].0;
        let v = kvs[0].1;
        assert(!has_key(s, k)) by {
            if has_key(s, k) {
                let i = key_index(s, k);
                lemma_key_index(s, k);
                assert((s + kvs)[i].0 == k);
                assert((s + kvs)[s.len() as int].0 == k);
                assert((s + kvs)[i].0 != (s + kvs)[s.len() as int].0);
            }
        }
        let s1 = model_insert(s, cap, k, v);
        assert(s1 == s.push((k, v)));
        lemma_pair_eta(kvs[0]);
        assert(s1 + kvs.drop_first() =~= s + kvs);
        lemma_fill_fresh(s1, cap, kvs.drop_first());
    }
}

/// A run of insertions is the run without its last insertion, followed by
/// that last insertion.
proof fn lemma_insert_all_snoc(
    s: Seq<(Seq<char>, Seq<IpAddress>)>,
    cap: int,
    kvs: Seq<(Seq<char>, Seq<IpAddress>)>,
)
    requires
        kvs.len() > 0,
    ensures
        model_insert_all(s, cap, kvs) == model_insert(
            model_insert_all(s, cap, kvs.drop_last()),
            cap,
            kvs.last().0,
            kvs.last().1,
        ),
    decreases kvs.len(),
{
    let s1 = model_insert(s, cap, kvs[0].0, kvs[0].1);
    if kvs.len() == 1 {
        assert(kvs.drop_last() =~= Seq::<(Seq<char>, Seq<IpAddress>)>::empty());
        assert(kvs.drop_first() =~= Seq::<(Seq<char>, Seq<IpAddress>)>::empty());
        assert(kvs.last() == kvs[0]);
        assert(model_insert_all(s, cap, kvs) == model_insert_all(s1, cap, kvs.drop_first()));
        assert(model_insert_all(s1, cap, kvs.drop_first()) == s1);
        assert(model_insert_all(s, cap, kvs.drop_last()) == s);
    } else {
        let dl = kvs.drop_last();
        let df = kvs.drop_first();
        assert(dl[0] == kvs[0]);
        assert(model_insert_all(s, cap, kvs) == model_insert_all(s1, cap, df));
        lemma_insert_all_snoc(s1, cap, df);
        assert(df.drop_last() =~= dl.drop_first());
        assert(df.last() == kvs.last());
        assert(model_insert_all(s, cap, dl) == model_insert_all(s1, cap, dl.drop_first()));
    }
}

/// LRU correctness: inserting `cap + 1` pairwise distinct keys, in order,
/// into an empty cache of capacity `cap` evicts exactly the first key; the
/// other `cap` keys are all present afterwards.
pub proof fn lemma_lru_eviction(cap: int, kvs: Seq<(Seq<char>, Seq<IpAddress>)>)
    requires
        cap >= 1,
        kvs.len() == cap + 1,
        distinct_keys(kvs),
    ensures
        ({
            let end = model_insert_all(Seq::empty(), cap, kvs);
            &&& end.len() == cap
            &&& !has_key(end, kvs[0].0)
            &&& forall|i: int| 1 <= i <= cap ==> has_key(end, #[trigger] kvs[i].0)
        }),
{
    let e = Seq::<(Seq<char>, Seq<IpAddress>)>::empty();
    let front = kvs.drop_last();
    assert(front.len() == cap);
    assert(e + front =~= front);
    assert(distinct_keys(front)) by {
        assert(forall|i: int| 0 <= i < front.len() ==> #[trigger] front[i] == kvs[i]);
    }
    lemma_fill_fresh(e, cap, front);
    let mid = model_insert_all(e, cap, front);
    assert(mid == e + front);
    assert(mid =~= front);
    lemma_insert_all_snoc(e, cap, kvs);
    let lk = kvs.last().0;
    let lv = kvs.last().1;
    assert(kvs.last() == kvs[cap as int]);
    assert(!has_key(mid, lk)) by {
        if has_key(mid, lk) {
            let i = key_index(mid, lk);
            lemma_key_index(mid, lk);
            assert(kvs[i].0 == kvs[cap as int].0);
        }
    }
    let end = model_insert_all(e, cap, kvs);
    assert(end == mid.subrange(1, cap).push((lk, lv)));
    assert(end.len() == cap);
    assert forall|j: int| 0 <= j < cap implies #[trigger] end[j].0 != kvs[0].0 by {
        if j < cap - 1 {
            assert(end[j] == kvs[j + 1]);
            assert(kvs[0].0 != kvs[j + 1].0);
        } else {
            assert(end[j].0 == lk);
            assert(kvs[0].0 != kvs[cap as int].0);
        }
    }
    assert(!has_key(end, kvs[0].0));
    assert forall|i: int| 1 <= i <= cap implies has_key(end, #[trigger] kvs[i].0) by {
        if i < cap {
            assert(end[i - 1] == kvs[i]);
            assert(end[i - 1].0 == kvs[i].0);
        } else {
            assert(end[cap - 1].0 == kvs[i].0);
        }
    }
}

/// Recency refresh: with capacity 2, after inserting `k1` then `k2`, a hit
/// on `k1` and then an insertion of a third key `k3` evicts `k2` — the
/// least recently used entry — and keeps `k1` and `k3`.
pub proof fn lemma_recency_refresh(
    k1: Seq<char>,
    k2: Seq<char>,
    k3: Seq<char>,
    v1: Seq<IpAddress>,
    v2: Seq<IpAddress>,
    v3: Seq<IpAddress>,
)
    requires
        k1 != k2,
        k1 != k3,
        k2 != k3,
    ensures
        ({
            let s1 = model_insert(Seq::empty(), 2, k1, v1);
            let s2 = model_insert(s1, 2, k2, v2);
            let s3 = model_get(s2, k1);
            let s4 = model_insert(s3, 2, k3, v3);
            &&& has_key(s4, k1)
            &&& has_key(s4, k3)
            &&& !has_key(s4, k2)
        }),
{
    let e = Seq::<(Seq<char>, Seq<IpAddress>)>::empty();
    assert(!has_key(e, k1));
    let s1 = model_insert(e, 2, k1, v1);
    assert(s1 =~= seq![(k1, v1)]);
    assert(!has_key(s1, k2)) by {
        if has_key(s1, k2) {
            let i = key_index(s1, k2);
            lemma_key_index(s1, k2);
            assert(s1[i].0 == k1);
        }
    }
    let s2 = model_insert(s1, 2, k2, v2);
    assert(s2 =~= seq![(k1, v1), (k2, v2)]);
    assert(distinct_keys(s2)) by {
        assert forall|i: int, j: int| 0 <= i < j < s2.len() implies #[trigger] s2[i].0
            != #[trigger] s2[j].0 by {
            assert(s2[0].0 == k1);
            assert(s2[1].0 == k2);
        }
    }
    lemma_key_index_unique(s2, k1, 0);
    let s3 = model_get(s2, k1);
    assert(s3 =~= seq![(k2, v2), (k1, v1)]) by {
        assert(s2.remove(0) =~= seq![(k2, v2)]);
    }
    assert(!has_key(s3, k3)) by {
        if has_key(s3, k3) {
            let i = key_index(s3, k3);
            lemma_key_index(s3, k3);
            assert(s3[0].0 == k2);
            assert(s3[1].0 == k1);
        }
    }
    assert(s3.len() == 2);
    let s4 = model_insert(s3, 2, k3, v3);
    assert(s4 =~= seq![(k1, v1), (k3, v3)]) by {
        assert(s3.subrange(1, 2) =~= seq![(k1, v1)]);
    }
    assert(s4[0].0 == k1);
    assert(s4[1].0 == k3);
    assert(!has_key(s4, k2)) by {
        if has_key(s4, k2) {
            let i = key_index(s4, k2);
            lemma_key_index(s4, k2);
        }
    }
}

/// Hit/miss counting: from zero counters, one lookup of a hostname absent
/// from a fresh cache is a miss; once the insertion job for it has run, a
/// second lookup of the same hostname is a hit; the counters then read one
/// miss and one match.
pub proof fn lemma_hit_miss_counting(cap: int, k: Seq<char>, v: Seq<IpAddress>)
    requires
        cap >= 1,
    ensures
        ({
            let s0 = Seq::<(Seq<char>, Seq<IpAddress>)>::empty();
            let c1 = counters_after_lookup(s0, k, 0, 0);
            let s1 = model_get(s0, k);
            let s2 = model_insert(s1, cap, k, v);
            let c2 = counters_after_lookup(s2, k, c1.0, c1.1);
            &&& c1 == (0nat, 1nat)
            &&& c2 == (1nat, 1nat)
        }),
{
    let s0 = Seq::<(Seq<char>, Seq<IpAddress>)>::empty();
    assert(!has_key(s0, k));
    let s1 = model_get(s0, k);
    let s2 = model_insert(s1, cap, k, v);
    assert(s2 == s1.push((k, v)));
    assert(s2[0].0 == k);
    assert(has_key(s2, k));
}

/// No negative caching: a failed resolution schedules no insertion (the
/// contract of `after_miss`), and a missed lookup leaves the cache
/// unchanged, so a later lookup of the same hostname misses again and the
/// external resolver is consulted anew.
pub proof fn lemma_no_negative_caching(s: Seq<(Seq<char>, Seq<IpAddress>)>, k: Seq<char>)
    requires
        !has_key(s, k),
    ensures
        model_get(s, k) == s,
        !has_key(model_get(s, k), k),
{
}

} // verus!
