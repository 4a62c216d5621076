use vstd::prelude::*;
use crate::keyed::StringMap;

verus! {

/// The lock that guards a shared cache was abandoned by a holder that failed.
#[derive(Clone, Copy, Debug, PartialEq, Eq)]
pub enum CachingError {
    PoisonError,
}

/// A value and the time, in milliseconds of the caller's clock, it was stored.
pub struct CacheEntry<T> {
    pub updated: u64,
    pub value: T,
}

/// A keyed store whose entries count as present only while they are fresh.
/// Stale entries stay until overwritten: freshness is decided at read time.
pub struct Cache<T> {
    timeout: u64,
    entries: StringMap<CacheEntry<T>>,
}

/// How old an entry written at `updated` is at `now`; a clock that went
/// backwards gives age zero.
pub open spec fn age(updated: u64, now: u64) -> int {
    if now >= updated {
        now - updated
    } else {
        0
    }
}

pub open spec fn is_fresh(updated: u64, threshold: u64, now: u64) -> bool {
    age(updated, now) <= threshold
}

/// The window that applies: the one asked for, else the cache's own.
pub open spec fn threshold(timeout: u64, expiration: Option<u64>) -> u64 {
    match expiration {
        Some(e) => e,
        None => timeout,
    }
}

/// What a read of `key` finds in a store with contents `m` and default window
/// `timeout`.
pub open spec fn lookup<T>(
    m: Map<Seq<char>, CacheEntry<T>>,
    timeout: u64,
    key: Seq<char>,
    expiration: Option<u64>,
    now: u64,
) -> Option<CacheEntry<T>> {
    if m.contains_key(key) && is_fresh(m[key].updated, threshold(timeout, expiration), now) {
        Some(m[key])
    } else {
        None
    }
}

/// The contents after storing `value` under `key` at `now`.
pub open spec fn stored<T>(
    m: Map<Seq<char>, CacheEntry<T>>,
    key: Seq<char>,
    value: T,
    now: u64,
) -> Map<Seq<char>, CacheEntry<T>> {
    m.insert(key, CacheEntry { updated: now, value })
}

impl<T> Cache<T> {
    pub closed spec fn wf(&self) -> bool {
        self.entries.wf()
    }

    /// The default freshness window, in milliseconds.
    pub closed spec fn timeout(&self) -> u64 {
        self.timeout
    }

    /// What the cache holds, stale entries included.
    pub closed spec fn view(&self) -> Map<Seq<char>, CacheEntry<T>> {
        self.entries@
    }

    /// An empty cache whose entries stay fresh for `timeout` milliseconds.
    pub fn new(timeout: u64) -> (r: Cache<T>)
        ensures
            r.wf(),
            r@ == Map::<Seq<char>, CacheEntry<T>>::empty(),
            r.timeout() == timeout,
    {
        Cache { timeout, entries: StringMap::new() }
    }

    /// The entry under `key` itself, if it is at most `expiration` (or the
    /// default window) old at `now`.
    pub fn peek(&self, key: &str, expiration: Option<u64>, now: u64) -> (r: Option<&CacheEntry<T>>)
        requires
            self.wf(),
        ensures
            r is Some <==> lookup(self@, self.timeout(), key@, expiration, now) is Some,
            r matches Some(e) ==> *e == lookup(self@, self.timeout(), key@, expiration, now)->0,
    {
        match self.entries.get(key) {
            Some(entry) => {
                let age = if now >= entry.updated {
                    now - entry.updated
                } else {
                    0
                };
                let limit = match expiration {
                    Some(e) => e,
                    None => self.timeout,
                };
                if age <= limit {
                    Some(entry)
                } else {
                    None
                }
            },
            None => None,
        }
    }

    /// The entry under `key` if it is at most `expiration` (or the default
    /// window) old at `now`; a stale or absent entry is a miss.
    pub fn get(&self, key: &str, expiration: Option<u64>, now: u64) -> (r: Option<CacheEntry<T>>)
        where
            T: Clone,
        requires
            self.wf(),
        ensures
            r is Some <==> lookup(self@, self.timeout(), key@, expiration, now) is Some,
            r matches Some(e) ==> {
                let found = lookup(self@, self.timeout(), key@, expiration, now)->0;
                e.updated == found.updated && cloned(found.value, e.value)
            },
    {
        match self.peek(key, expiration, now) {
            Some(entry) => Some(CacheEntry { updated: entry.updated, value: entry.value.clone() }),
            None => None,
        }
    }

    /// Stores `value` under `key` as written at `now`, replacing what was there.
    pub fn set(&mut self, key: String, value: T, now: u64)
        requires
            old(self).wf(),
        ensures
            final(self).wf(),
            final(self)@ == stored(old(self)@, key@, value, now),
            final(self).timeout() == old(self).timeout(),
    {
        self.entries.insert(key, CacheEntry { updated: now, value });
    }
}

/// A value stored at `written` and read back at `now` with the default window
/// is found while it is at most that window old, and missed once it is older;
/// a read with a shorter window can miss while the default window still finds
/// it.
pub proof fn lemma_stored_then_read<T>(
    contents: Map<Seq<char>, CacheEntry<T>>,
    timeout: u64,
    key: Seq<char>,
    value: T,
    written: u64,
    now: u64,
    shorter: u64,
)
    ensures
        age(written, now) <= timeout ==> lookup(
            stored(contents, key, value, written),
            timeout,
            key,
            None,
            now,
        ) == Some(CacheEntry { updated: written, value }),
        age(written, now) > timeout ==> lookup(
            stored(contents, key, value, written),
            timeout,
            key,
            None,
            now,
        ) is None,
        shorter < age(written, now) <= timeout ==> lookup(
            stored(contents, key, value, written),
            timeout,
            key,
            Some(shorter),
            now,
        ) is None && lookup(stored(contents, key, value, written), timeout, key, None, now) is Some,
{
}

} // verus!
