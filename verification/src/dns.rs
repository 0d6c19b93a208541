use vstd::prelude::*;

use crate::addr::{copy_addrs, IpAddress};
use crate::cache::{has_key, key_index, model_get, model_insert, LruCache};

verus! {

/// The default number of cached hostnames when no capacity is given.
pub const DEFAULT_DNS_CACHE_CAPACITY: usize = 65536;

/// The single failure kind: the external resolver reported an error for the
/// requested hostname.
#[derive(Clone, Copy, PartialEq, Eq, Structural, Debug)]
pub struct ResolveError;

/// The counter pair after one lookup: a hit bumps the match count, a miss
/// the miss count, and nothing else changes.
pub open spec fn counters_after_lookup(
    s: Seq<(Seq<char>, Seq<IpAddress>)>,
    k: Seq<char>,
    matched: nat,
    missed: nat,
) -> (nat, nat) {
    if has_key(s, k) {
        ((matched + 1) as nat, missed)
    } else {
        (matched, (missed + 1) as nat)
    }
}

/// The lock-protected unit of shared state: the bounded LRU cache together
/// with its two diagnostic counters. Not internally synchronized; exclusive
/// access is the caller's responsibility.
pub struct DnsLruCache {
    cache: LruCache,
    totally_matched: usize,
    totally_missed: usize,
}

impl DnsLruCache {
    /// The modelled cache contents, in recency order.
    pub closed spec fn entries(self) -> Seq<(Seq<char>, Seq<IpAddress>)> {
        self.cache@
    }

    /// The fixed capacity.
    pub closed spec fn cap(self) -> int {
        self.cache.cap()
    }

    /// Cumulative count of lookups satisfied by the cache.
    pub closed spec fn matched(self) -> nat {
        self.totally_matched as nat
    }

    /// Cumulative count of lookups not satisfied by the cache.
    pub closed spec fn missed(self) -> nat {
        self.totally_missed as nat
    }

    /// Well-formed: the underlying cache is well-formed.
    pub closed spec fn wf(self) -> bool {
        self.cache.wf()
    }

    /// An empty cache with zeroed counters and the given positive capacity.
    pub fn new(capacity: usize) -> (r: DnsLruCache)
        requires
            capacity >= 1,
        ensures
            r.wf(),
            r.cap() == capacity,
            r.entries() == Seq::<(Seq<char>, Seq<IpAddress>)>::empty(),
            r.matched() == 0,
            r.missed() == 0,
    {
        DnsLruCache { cache: LruCache::new(capacity), totally_matched: 0, totally_missed: 0 }
    }

    /// One cache consultation for `addr`, performed under exclusive access.
    /// A hit refreshes the entry's recency, bumps the match counter and
    /// returns an independent copy of the stored address list; a miss bumps
    /// the miss counter and leaves the cache unchanged.
    pub fn lookup(&mut self, addr: &String) -> (r: Option<Vec<IpAddress>>)
        requires
            old(self).wf(),
            old(self).matched() < usize::MAX,
            old(self).missed() < usize::MAX,
        ensures
            final(self).wf(),
            final(self).cap() == old(self).cap(),
            final(self).entries() == model_get(old(self).entries(), addr@),
            (final(self).matched(), final(self).missed()) == counters_after_lookup(
                old(self).entries(),
                addr@,
                old(self).matched(),
                old(self).missed(),
            ),
            match r {
                Some(v) => has_key(old(self).entries(), addr@) && v@ == old(self).entries()[
                    key_index(old(self).entries(), addr@)].1,
                None => !has_key(old(self).entries(), addr@),
            },
    {
        let r = self.cache.get(addr);
        match &r {
            Some(_) => {
                self.totally_matched = self.totally_matched + 1;
            },
            None => {
                self.totally_missed = self.totally_missed + 1;
            },
        }
        r
    }

    /// The background population step, performed under exclusive access: one
    /// LRU insertion of a successfully resolved address list. The counters
    /// are untouched. Always succeeds.
    pub fn insert(&mut self, addr: String, addrs: Vec<IpAddress>)
        requires
            old(self).wf(),
        ensures
            final(self).wf(),
            final(self).cap() == old(self).cap(),
            final(self).entries() == model_insert(
                old(self).entries(),
                old(self).cap(),
                addr@,
                addrs@,
            ),
            final(self).matched() == old(self).matched(),
            final(self).missed() == old(self).missed(),
    {
        self.cache.insert(addr, addrs);
    }

    /// Does the cache currently hold an entry for `addr`? Recency unchanged.
    pub fn contains_key(&self, addr: &String) -> (r: bool)
        ensures
            r == has_key(self.entries(), addr@),
    {
        self.cache.contains_key(addr)
    }

    /// The number of entries currently held.
    pub fn len(&self) -> (r: usize)
        ensures
            r == self.entries().len(),
    {
        self.cache.len()
    }

    /// The capacity fixed at construction.
    pub fn capacity(&self) -> (r: usize)
        ensures
            r == self.cap(),
    {
        self.cache.capacity()
    }

    /// The cumulative hit counter.
    pub fn totally_matched(&self) -> (r: usize)
        ensures
            r == self.matched(),
    {
        self.totally_matched
    }

    /// The cumulative miss counter.
    pub fn totally_missed(&self) -> (r: usize)
        ensures
            r == self.missed(),
    {
        self.totally_missed
    }
}

/// What a finished miss does next: the reply handed back to the caller at
/// once, and the address list to hand to the background insertion job, if
/// any.
pub struct MissAction {
    pub reply: Option<Vec<IpAddress>>,
    pub to_cache: Option<Vec<IpAddress>>,
}

/// Decide the aftermath of a cache miss from the external resolver's
/// outcome. Success hands the resolved list straight back to the caller and
/// schedules an identical copy for insertion; failure hands back no result
/// and schedules nothing, so a failed resolution is never cached.
pub fn after_miss(resolved: Result<Vec<IpAddress>, ResolveError>) -> (r: MissAction)
    ensures
        match resolved {
            Ok(addrs) => {
                &&& r.reply matches Some(a) && a@ == addrs@
                &&& r.to_cache matches Some(c) && c@ == addrs@
            },
            Err(_) => r.reply is None && r.to_cache is None,
        },
{
    match resolved {
        Ok(addrs) => {
            let stored = copy_addrs(&addrs);
            MissAction { reply: Some(addrs), to_cache: Some(stored) }
        },
        Err(_) => MissAction { reply: None, to_cache: None },
    }
}

} // verus!
