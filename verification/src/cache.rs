//! A keyed cache whose entries expire at a fixed time after insertion.
//!
//! Time is handed in by the caller as a plain tick count, so that expiry is
//! decided by the values alone.

use vstd::prelude::*;

verus! {

/// One cached value and the tick at which it expires.
pub struct CacheEntry<V> {
    pub value: V,
    pub expire_at: u64,
}

/// The entries whose key is not `key`.
pub open spec fn cache_without<V>(s: Seq<(u64, CacheEntry<V>)>, key: u64) -> Seq<
    (u64, CacheEntry<V>),
> {
    s.filter(|p: (u64, CacheEntry<V>)| p.0 != key)
}

/// The entries still unexpired at `now`.
pub open spec fn cache_live<V>(s: Seq<(u64, CacheEntry<V>)>, now: u64) -> Seq<
    (u64, CacheEntry<V>),
> {
    s.filter(|p: (u64, CacheEntry<V>)| p.1.expire_at > now)
}

/// The first entry stored under `key`, if any.
pub open spec fn cache_lookup<V>(s: Seq<(u64, CacheEntry<V>)>, key: u64) -> Option<CacheEntry<V>>
    decreases s.len(),
{
    if s.len() == 0 {
        None
    } else if s[0].0 == key {
        Some(s[0].1)
    } else {
        cache_lookup(s.drop_first(), key)
    }
}

/// A cache with one time-to-live for every entry.
pub struct Cache<V> {
    entries: Vec<(u64, CacheEntry<V>)>,
    pub default_ttl: u64,
}

impl<V> Cache<V> {
    /// The stored entries, in storage order.
    pub closed spec fn model(&self) -> Seq<(u64, CacheEntry<V>)> {
        self.entries@
    }

    /// The time-to-live given to every insertion.
    pub closed spec fn spec_ttl(&self) -> u64 {
        self.default_ttl
    }

    /// An empty cache with the given time-to-live.
    pub fn new(default_ttl: u64) -> (r: Self)
        ensures
            r.model() == Seq::<(u64, CacheEntry<V>)>::empty(),
            r.spec_ttl() == default_ttl,
    {
        let r = Cache { entries: Vec::new(), default_ttl };
        proof {
            assert(r.model() =~= Seq::<(u64, CacheEntry<V>)>::empty());
        }
        r
    }

    /// Stores a value under a key, replacing what the key held, to expire
    /// one time-to-live from `now`.
    pub fn insert(&mut self, key: u64, value: V, now: u64)
        requires
            now + old(self).spec_ttl() <= u64::MAX,
        ensures
            final (self).spec_ttl() == old(self).spec_ttl(),
            final (self).model() == cache_without(old(self).model(), key).push(
                (key, CacheEntry { value, expire_at: (now + old(self).spec_ttl()) as u64 }),
            ),
    {
        self.retain_without(key);
        let entry = CacheEntry { value, expire_at: now + self.default_ttl };
        self.entries.push((key, entry));
    }

    /// Drops every entry stored under `key`.
    fn retain_without(&mut self, key: u64)
        ensures
            final (self).spec_ttl() == old(self).spec_ttl(),
            final (self).model() == cache_without(old(self).model(), key),
    {
        let mut rest: Vec<(u64, CacheEntry<V>)> = Vec::new();
        core::mem::swap(&mut rest, &mut self.entries);
        let ghost orig = rest@;
        let mut kept: Vec<(u64, CacheEntry<V>)> = Vec::new();
        let n = rest.len();
        let mut i: usize = 0;
        while i < n
            invariant
                i <= n,
                n == orig.len(),
                rest@ =~= orig.skip(i as int),
                kept@ == cache_without(orig.take(i as int), key),
            decreases n - i,
        {
            let ghost prefix = orig.take(i as int);
            let pair = rest.remove(0);
            proof {
                reveal_with_fuel(Seq::<_>::filter, 2);
                assert(orig.skip(i as int)[0] == orig[i as int]);
                assert(orig.skip(i as int).remove(0) =~= orig.skip(i + 1));
                assert(orig.take(i + 1) =~= prefix.push(orig[i as int]));
                assert(prefix.push(orig[i as int]).drop_last() =~= prefix);
            }
            if pair.0 != key {
                let ghost kept_before = kept@;
                kept.push(pair);
                proof {
                    assert(kept@ =~= kept_before.push(orig[i as int]));
                }
            }
            i = i + 1;
        }
        proof {
            assert(orig.take(n as int) =~= orig);
        }
        self.entries = kept;
    }

    /// The live value under `key` at `now`.  An expired entry is dropped
    /// and reported as absent.
    pub fn get(&mut self, key: &u64, now: u64) -> (r: Option<&V>)
        ensures
            final (self).spec_ttl() == old(self).spec_ttl(),
            match r {
                Some(v) => match cache_lookup(old(self).model(), *key) {
                    Some(e) => {
                        &&& now <= e.expire_at
                        &&& *v == e.value
                        &&& final (self).model() == old(self).model()
                    },
                    None => false,
                },
                None => match cache_lookup(old(self).model(), *key) {
                    Some(e) => now > e.expire_at && final (self).model() == cache_without(
                        old(self).model(),
                        *key,
                    ),
                    None => final (self).model() == old(self).model(),
                },
            },
    {
        let k = *key;
        let n = self.entries.len();
        let mut i: usize = 0;
        proof {
            assert(self.entries@.skip(0) =~= self.entries@);
        }
        while i < n
            invariant
                i <= n,
                n == self.entries@.len(),
                *self == *old(self),
                k == *key,
                cache_lookup(self.entries@, k) == cache_lookup(
                    self.entries@.skip(i as int),
                    k,
                ),
            decreases n - i,
        {
            proof {
                assert(self.entries@.skip(i as int)[0] == self.entries@[i as int]);
                assert(self.entries@.skip(i as int).drop_first() =~= self.entries@.skip(i + 1));
            }
            if self.entries[i].0 == k {
                if now > self.entries[i].1.expire_at {
                    self.retain_without(k);
                    return None;
                }
                return Some(&self.entries[i].1.value);
            }
            i = i + 1;
        }
        proof {
            assert(self.entries@.skip(n as int).len() == 0);
        }
        None
    }

    /// Drops every entry already expired at `now`.
    pub fn cleanup_expired(&mut self, now: u64)
        ensures
            final (self).spec_ttl() == old(self).spec_ttl(),
            final (self).model() == cache_live(old(self).model(), now),
    {
        let mut rest: Vec<(u64, CacheEntry<V>)> = Vec::new();
        core::mem::swap(&mut rest, &mut self.entries);
        let ghost orig = rest@;
        let mut kept: Vec<(u64, CacheEntry<V>)> = Vec::new();
        let n = rest.len();
        let mut i: usize = 0;
        while i < n
            invariant
                i <= n,
                n == orig.len(),
                rest@ =~= orig.skip(i as int),
                kept@ == cache_live(orig.take(i as int), now),
            decreases n - i,
        {
            let ghost prefix = orig.take(i as int);
            let pair = rest.remove(0);
            proof {
                reveal_with_fuel(Seq::<_>::filter, 2);
                assert(orig.skip(i as int)[0] == orig[i as int]);
                assert(orig.skip(i as int).remove(0) =~= orig.skip(i + 1));
                assert(orig.take(i + 1) =~= prefix.push(orig[i as int]));
                assert(prefix.push(orig[i as int]).drop_last() =~= prefix);
            }
            if pair.1.expire_at > now {
                let ghost kept_before = kept@;
                kept.push(pair);
                proof {
                    assert(kept@ =~= kept_before.push(orig[i as int]));
                }
            }
            i = i + 1;
        }
        proof {
            assert(orig.take(n as int) =~= orig);
        }
        self.entries = kept;
    }

    /// The number of stored entries, expired ones included.
    pub fn len(&self) -> (r: usize)
        ensures
            r == self.model().len(),
    {
        self.entries.len()
    }
}

} // verus!
