//! Hash tables keyed by chunk location, held in `hashbrown` maps and sets.
//! Each table's contents are named by an uninterpreted spec function, and each
//! operation states what `hashbrown` does to those contents.
use vstd::prelude::*;
use crate::chunk::ClientChunk;
use crate::geometry::ChunkKey;
use crate::save::ChunkSaveCache;

verus! {

/// The loaded chunks, by location.
#[verifier::external_body]
pub struct ChunkTable {
    inner: hashbrown::HashMap<ChunkKey, ClientChunk>,
}

/// Remaining request time, in nanoseconds, by location.
#[verifier::external_body]
pub struct TimerTable {
    inner: hashbrown::HashMap<ChunkKey, u64>,
}

/// Chunks waiting to be saved, with the instant (in nanoseconds of the saver's
/// clock) at which they are due, by location.
#[verifier::external_body]
pub struct CacheTable {
    inner: hashbrown::HashMap<ChunkKey, (u64, ChunkSaveCache)>,
}

/// A set of chunk locations.
#[verifier::external_body]
pub struct KeySet {
    inner: hashbrown::HashSet<ChunkKey>,
}

/// What a chunk table holds.
pub uninterp spec fn chunk_table_contents(t: ChunkTable) -> Map<ChunkKey, ClientChunk>;

/// What a timer table holds.
pub uninterp spec fn timer_table_contents(t: TimerTable) -> Map<ChunkKey, u64>;

/// What a cache table holds.
pub uninterp spec fn cache_table_contents(t: CacheTable) -> Map<ChunkKey, (u64, ChunkSaveCache)>;

/// What a key set holds.
pub uninterp spec fn key_set_contents(s: KeySet) -> Set<ChunkKey>;

pub open spec fn no_chunks() -> Map<ChunkKey, ClientChunk> {
    Map::empty()
}

pub open spec fn no_timers() -> Map<ChunkKey, u64> {
    Map::empty()
}

pub open spec fn no_cached() -> Map<ChunkKey, (u64, ChunkSaveCache)> {
    Map::empty()
}

pub open spec fn no_keys() -> Set<ChunkKey> {
    Set::empty()
}

impl ChunkTable {
    /// `hashbrown::HashMap::with_capacity`: an empty map.
    #[verifier::external_body]
    pub(crate) fn with_capacity(capacity: usize) -> (t: ChunkTable)
        ensures
            chunk_table_contents(t) == no_chunks(),
    {
        ChunkTable { inner: hashbrown::HashMap::with_capacity(capacity) }
    }

    /// `hashbrown::HashMap::get`: the value stored under `k`, if any.
    #[verifier::external_body]
    pub(crate) fn get(&self, k: &ChunkKey) -> (r: Option<&ClientChunk>)
        ensures
            r is Some <==> chunk_table_contents(*self).dom().contains(*k),
            r matches Some(c) ==> *c == chunk_table_contents(*self)[*k],
    {
        self.inner.get(k)
    }

    /// `hashbrown::HashMap::get_mut`: the value stored under `k`, to change
    /// in place.
    #[verifier::external_body]
    pub(crate) fn get_mut(&mut self, k: &ChunkKey) -> (r: Option<&mut ClientChunk>)
        ensures
            r is Some <==> chunk_table_contents(*old(self)).dom().contains(*k),
            r matches Some(c) ==> *c == chunk_table_contents(*old(self))[*k] && chunk_table_contents(*final(self))
                == chunk_table_contents(*old(self)).insert(*k, *final(c)),
            r is None ==> chunk_table_contents(*final(self)) == chunk_table_contents(*old(self)),
    {
        self.inner.get_mut(k)
    }

    /// `hashbrown::HashMap::contains_key`.
    #[verifier::external_body]
    pub(crate) fn contains_key(&self, k: &ChunkKey) -> (b: bool)
        ensures
            b == chunk_table_contents(*self).dom().contains(*k),
    {
        self.inner.contains_key(k)
    }

    /// `hashbrown::HashMap::insert`: stores `v` under `k` and hands back the
    /// value it replaced.
    #[verifier::external_body]
    pub(crate) fn insert(&mut self, k: ChunkKey, v: ClientChunk) -> (r: Option<ClientChunk>)
        ensures
            chunk_table_contents(*final(self)) == chunk_table_contents(*old(self)).insert(k, v),
            r is Some <==> chunk_table_contents(*old(self)).dom().contains(k),
            r matches Some(c) ==> c == chunk_table_contents(*old(self))[k],
    {
        self.inner.insert(k, v)
    }

    /// `hashbrown::HashMap::remove`: takes out the value stored under `k`.
    #[verifier::external_body]
    pub(crate) fn remove(&mut self, k: &ChunkKey) -> (r: Option<ClientChunk>)
        ensures
            chunk_table_contents(*final(self)) == chunk_table_contents(*old(self)).remove(*k),
            r is Some <==> chunk_table_contents(*old(self)).dom().contains(*k),
            r matches Some(c) ==> c == chunk_table_contents(*old(self))[*k],
    {
        self.inner.remove(k)
    }

    /// `hashbrown::HashMap::keys`, collected: every key once, in the map's
    /// iteration order, which depends on the hasher's seed.
    #[verifier::external_body]
    pub(crate) fn keys(&self) -> (r: Vec<ChunkKey>)
        ensures
            r@.no_duplicates(),
            forall|k: ChunkKey| r@.contains(k) <==> chunk_table_contents(*self).dom().contains(k),
    {
        self.inner.keys().copied().collect()
    }
}

impl TimerTable {
    /// `hashbrown::HashMap::new`: an empty map.
    #[verifier::external_body]
    pub(crate) fn new() -> (t: TimerTable)
        ensures
            timer_table_contents(t) == no_timers(),
    {
        TimerTable { inner: hashbrown::HashMap::new() }
    }

    /// `hashbrown::HashMap::get`, copied out.
    #[verifier::external_body]
    pub(crate) fn get(&self, k: &ChunkKey) -> (r: Option<u64>)
        ensures
            r is Some <==> timer_table_contents(*self).dom().contains(*k),
            r matches Some(t) ==> t == timer_table_contents(*self)[*k],
    {
        self.inner.get(k).copied()
    }

    /// `hashbrown::HashMap::contains_key`.
    #[verifier::external_body]
    pub(crate) fn contains_key(&self, k: &ChunkKey) -> (b: bool)
        ensures
            b == timer_table_contents(*self).dom().contains(*k),
    {
        self.inner.contains_key(k)
    }

    /// `hashbrown::HashMap::insert`.
    #[verifier::external_body]
    pub(crate) fn insert(&mut self, k: ChunkKey, v: u64) -> (r: Option<u64>)
        ensures
            timer_table_contents(*final(self)) == timer_table_contents(*old(self)).insert(k, v),
            r is Some <==> timer_table_contents(*old(self)).dom().contains(k),
            r matches Some(t) ==> t == timer_table_contents(*old(self))[k],
    {
        self.inner.insert(k, v)
    }

    /// `hashbrown::HashMap::remove`.
    #[verifier::external_body]
    pub(crate) fn remove(&mut self, k: &ChunkKey) -> (r: Option<u64>)
        ensures
            timer_table_contents(*final(self)) == timer_table_contents(*old(self)).remove(*k),
            r is Some <==> timer_table_contents(*old(self)).dom().contains(*k),
            r matches Some(t) ==> t == timer_table_contents(*old(self))[*k],
    {
        self.inner.remove(k)
    }

    /// `hashbrown::HashMap::keys`, collected: every key once, in the map's
    /// iteration order.
    #[verifier::external_body]
    pub(crate) fn keys(&self) -> (r: Vec<ChunkKey>)
        ensures
            r@.no_duplicates(),
            forall|k: ChunkKey| r@.contains(k) <==> timer_table_contents(*self).dom().contains(k),
    {
        self.inner.keys().copied().collect()
    }

    /// `hashbrown::HashMap::clear`: removes every entry.
    #[verifier::external_body]
    pub(crate) fn clear(&mut self)
        ensures
            timer_table_contents(*final(self)) == no_timers(),
    {
        self.inner.clear()
    }
}

impl CacheTable {
    /// `hashbrown::HashMap::new`: an empty map.
    #[verifier::external_body]
    pub(crate) fn new() -> (t: CacheTable)
        ensures
            cache_table_contents(t) == no_cached(),
    {
        CacheTable { inner: hashbrown::HashMap::new() }
    }

    /// `hashbrown::HashMap::get`: the due instant stored under `k`, if any.
    #[verifier::external_body]
    pub(crate) fn due(&self, k: &ChunkKey) -> (r: Option<u64>)
        ensures
            r is Some <==> cache_table_contents(*self).dom().contains(*k),
            r matches Some(t) ==> t == cache_table_contents(*self)[*k].0,
    {
        self.inner.get(k).map(|entry| entry.0)
    }

    /// `hashbrown::HashMap::insert`.
    #[verifier::external_body]
    pub(crate) fn insert(&mut self, k: ChunkKey, v: (u64, ChunkSaveCache)) -> (r: Option<
        (u64, ChunkSaveCache),
    >)
        ensures
            cache_table_contents(*final(self)) == cache_table_contents(*old(self)).insert(k, v),
            r is Some <==> cache_table_contents(*old(self)).dom().contains(k),
            r matches Some(e) ==> e == cache_table_contents(*old(self))[k],
    {
        self.inner.insert(k, v)
    }

    /// `hashbrown::HashMap::remove`.
    #[verifier::external_body]
    pub(crate) fn remove(&mut self, k: &ChunkKey) -> (r: Option<(u64, ChunkSaveCache)>)
        ensures
            cache_table_contents(*final(self)) == cache_table_contents(*old(self)).remove(*k),
            r is Some <==> cache_table_contents(*old(self)).dom().contains(*k),
            r matches Some(e) ==> e == cache_table_contents(*old(self))[*k],
    {
        self.inner.remove(k)
    }

    /// `hashbrown::HashMap::keys`, collected: every key once, in the map's
    /// iteration order.
    #[verifier::external_body]
    pub(crate) fn keys(&self) -> (r: Vec<ChunkKey>)
        ensures
            r@.no_duplicates(),
            forall|k: ChunkKey| r@.contains(k) <==> cache_table_contents(*self).dom().contains(k),
    {
        self.inner.keys().copied().collect()
    }
}

impl KeySet {
    /// `hashbrown::HashSet::new`: an empty set.
    #[verifier::external_body]
    pub(crate) fn new() -> (s: KeySet)
        ensures
            key_set_contents(s) == no_keys(),
    {
        KeySet { inner: hashbrown::HashSet::new() }
    }

    /// `hashbrown::HashSet::contains`.
    #[verifier::external_body]
    pub(crate) fn contains(&self, k: &ChunkKey) -> (b: bool)
        ensures
            b == key_set_contents(*self).contains(*k),
    {
        self.inner.contains(k)
    }

    /// `hashbrown::HashSet::insert`: adds `k`, reporting whether it was new.
    #[verifier::external_body]
    pub(crate) fn insert(&mut self, k: ChunkKey) -> (b: bool)
        ensures
            key_set_contents(*final(self)) == key_set_contents(*old(self)).insert(k),
            b == !key_set_contents(*old(self)).contains(k),
    {
        self.inner.insert(k)
    }

    /// `hashbrown::HashSet::remove`: removes `k`, reporting whether it was present.
    #[verifier::external_body]
    pub(crate) fn remove(&mut self, k: &ChunkKey) -> (b: bool)
        ensures
            key_set_contents(*final(self)) == key_set_contents(*old(self)).remove(*k),
            b == key_set_contents(*old(self)).contains(*k),
    {
        self.inner.remove(k)
    }
}

} // verus!
