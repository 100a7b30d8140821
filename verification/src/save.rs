//! Bookkeeping of chunk saves: chunks wait in a cache until they are due, are
//! then handed out to be written, and the locations that have been written
//! are remembered so that they can be read back.
use vstd::prelude::*;
use std::time::Instant;
use crate::chunk::ChunkData;
use crate::geometry::{ChunkKey, ChunkLocation};
use crate::tables::{CacheTable, KeySet, cache_table_contents, key_set_contents, no_cached};

verus! {

#[verifier::external_type_specification]
#[verifier::external_body]
pub struct ExInstant(Instant);

/// `Instant::now`: the current instant of the monotonic clock.
#[verifier::external_body]
pub(crate) fn instant_now() -> Instant {
    Instant::now()
}

/// `Instant::elapsed`, in whole nanoseconds (wrapping past `u64::MAX`
/// nanoseconds, some five centuries). Nothing is stated of the value: it is
/// a reading of the clock.
#[verifier::external_body]
pub(crate) fn nanos_since(origin: &Instant) -> u64 {
    origin.elapsed().as_nanos() as u64
}

/// A chunk waiting to be saved.
#[derive(Debug)]
pub struct ChunkSaveCache {
    pub data: ChunkData,
}

impl ChunkSaveCache {
    pub fn new(data: ChunkData) -> (c: ChunkSaveCache)
        ensures
            c.data == data,
    {
        ChunkSaveCache { data }
    }
}

/// Where a chunk can be found again.
#[derive(Debug)]
pub enum SaveLookup {
    /// The chunk was still waiting in the cache; it is handed back and no
    /// longer waits.
    Cached(ChunkSaveCache),
    /// The chunk has been written out and must be read back from storage.
    Saved,
    /// The chunk was never saved.
    Absent,
}

/// Keeps chunks until they are due to be written and remembers which
/// locations have been written.
pub struct WorldSaver {
    default_cache_time: u64,
    clock: Instant,
    last_reading: u64,
    cache: CacheTable,
    saved: KeySet,
}

/// Keys of the entries of `m` that are due at `now`.
pub open spec fn due_keys(m: Map<ChunkKey, (u64, ChunkSaveCache)>, now: u64) -> Set<ChunkKey> {
    Set::new(|k: ChunkKey| m.dom().contains(k) && m[k].0 <= now)
}

/// The entries of `m` that are not yet due at `now`.
pub open spec fn not_due(m: Map<ChunkKey, (u64, ChunkSaveCache)>, now: u64) -> Map<
    ChunkKey,
    (u64, ChunkSaveCache),
> {
    Map::new(|k: ChunkKey| m.dom().contains(k) && m[k].0 > now, |k: ChunkKey| m[k])
}

/// Whether `r` lists, once each, exactly the entries of `m` whose keys are in
/// `keys`, with their locations.
pub open spec fn lists_entries(
    r: Seq<(ChunkLocation, ChunkSaveCache)>,
    m: Map<ChunkKey, (u64, ChunkSaveCache)>,
    keys: Set<ChunkKey>,
) -> bool {
    &&& forall|i: int, j: int| 0 <= i < j < r.len() ==> r[i].0 != r[j].0
    &&& forall|i: int|
        0 <= i < r.len() ==> keys.contains(#[trigger] r[i].0.key()) && r[i].1 == m[r[i].0.key()].1
    &&& forall|k: ChunkKey| keys.contains(k) ==> exists|i: int| 0 <= i < r.len() && #[trigger] r[i].0.key() == k
}

/// The set of keys of the locations in `s`.
pub open spec fn keys_of(s: Seq<ChunkLocation>) -> Set<ChunkKey> {
    Set::new(|k: ChunkKey| exists|i: int| 0 <= i < s.len() && #[trigger] s[i].key() == k)
}

/// The instant that lies `duration` nanoseconds after `now`, or the end of
/// the clock where that is past it.
pub open spec fn due_after(now: u64, duration: u64) -> u64 {
    if now + duration <= u64::MAX {
        (now + duration) as u64
    } else {
        u64::MAX
    }
}

/// A chunk cached at clock reading `reading` for `duration` nanoseconds is
/// not due at any later reading before `duration` has elapsed (short of the
/// end of the clock), and is due at every reading from then on.
pub proof fn lemma_cached_chunk_waits(
    cached: Map<ChunkKey, (u64, ChunkSaveCache)>,
    k: ChunkKey,
    reading: u64,
    duration: u64,
    later: u64,
)
    requires
        cached.dom().contains(k),
        cached[k].0 == due_after(reading, duration),
        later >= reading,
    ensures
        later < reading + duration && later < u64::MAX ==> !due_keys(cached, later).contains(k) && not_due(cached, later).dom().contains(k),
        later >= reading + duration ==> due_keys(cached, later).contains(k),
        later == u64::MAX ==> due_keys(cached, later).contains(k),
{
}

/// A chunk cached at `loc` is what the next lookup of `loc` hands back.
pub proof fn lemma_cached_chunk_comes_back(
    cached: Map<ChunkKey, (u64, ChunkSaveCache)>,
    loc: ChunkLocation,
    data: ChunkData,
    due: u64,
)
    ensures
        cached.insert(loc.key(), (due, ChunkSaveCache { data })).dom().contains(loc.key()),
        cached.insert(loc.key(), (due, ChunkSaveCache { data }))[loc.key()].1 == (ChunkSaveCache { data }),
{
}

/// A cached chunk that is due when the saver processes its cache is handed
/// out to be written, leaves the cache and is remembered as saved, so that a
/// lookup of it answers `Saved`; a chunk not yet due stays as it was.
pub proof fn lemma_due_chunk_is_saved(
    cached: Map<ChunkKey, (u64, ChunkSaveCache)>,
    saved: Set<ChunkKey>,
    k: ChunkKey,
    now: u64,
)
    requires
        cached.dom().contains(k),
    ensures
        cached[k].0 <= now ==> due_keys(cached, now).contains(k) && !not_due(cached, now).dom().contains(k)
            && saved.union(due_keys(cached, now)).contains(k),
        cached[k].0 > now ==> !due_keys(cached, now).contains(k) && not_due(cached, now).dom().contains(k)
            && not_due(cached, now)[k] == cached[k],
{
}

impl WorldSaver {
    /// The chunks waiting to be saved, with the instant they are due.
    pub closed spec fn cached(&self) -> Map<ChunkKey, (u64, ChunkSaveCache)> {
        cache_table_contents(self.cache)
    }

    /// The locations that have been written out.
    pub closed spec fn saved(&self) -> Set<ChunkKey> {
        key_set_contents(self.saved)
    }

    /// How long, in nanoseconds, a chunk waits before it is due.
    pub closed spec fn spec_default_cache_time(&self) -> u64 {
        self.default_cache_time
    }

    /// The latest reading of the saver's clock, in nanoseconds since the
    /// saver was made.
    pub closed spec fn clock_reading(&self) -> u64 {
        self.last_reading
    }

    /// Reads the clock. The saver's clock is monotonic, so a reading is never
    /// below the one before it; the reading is kept as the latest one.
    fn read_clock(&mut self) -> (now: u64)
        ensures
            now == final(self).clock_reading(),
            now >= old(self).clock_reading(),
            final(self).cached() == old(self).cached(),
            final(self).saved() == old(self).saved(),
            final(self).spec_default_cache_time() == old(self).spec_default_cache_time(),
    {
        let r = nanos_since(&self.clock);
        let now = if r < self.last_reading {
            self.last_reading
        } else {
            r
        };
        self.last_reading = now;
        now
    }

    /// A saver with nothing cached that knows the locations already written
    /// to storage.
    pub fn new(default_cache_time: u64, saved_locations: &Vec<ChunkLocation>) -> (w: WorldSaver)
        ensures
            w.cached() == no_cached(),
            w.saved() == keys_of(saved_locations@),
            w.spec_default_cache_time() == default_cache_time,
            w.clock_reading() == 0,
    {
        let mut saved = KeySet::new();
        let mut i: usize = 0;
        while i < saved_locations.len()
            invariant
                i <= saved_locations@.len(),
                key_set_contents(saved) == keys_of(saved_locations@.take(i as int)),
            decreases saved_locations@.len() - i,
        {
            let k = saved_locations[i].as_key();
            saved.insert(k);
            proof {
                let s = saved_locations@;
                assert forall|kk: ChunkKey| #[trigger] keys_of(s.take(i + 1)).contains(kk) <==> keys_of(
                    s.take(i as int),
                ).insert(k).contains(kk) by {
                    if keys_of(s.take(i + 1)).contains(kk) {
                        let j = choose|j: int| 0 <= j < i + 1 && #[trigger] s.take(i + 1)[j].key() == kk;
                        if j < i {
                            assert(s.take(i as int)[j].key() == kk);
                        }
                    }
                    if keys_of(s.take(i as int)).contains(kk) {
                        let j = choose|j: int| 0 <= j < i && #[trigger] s.take(i as int)[j].key() == kk;
                        assert(s.take(i + 1)[j].key() == kk);
                    }
                    if kk == k {
                        assert(s.take(i + 1)[i as int].key() == kk);
                    }
                }
                assert(keys_of(s.take(i + 1)) =~= keys_of(s.take(i as int)).insert(k));
            }
            i = i + 1;
        }
        assert(saved_locations@.take(saved_locations@.len() as int) =~= saved_locations@);
        WorldSaver { default_cache_time, clock: instant_now(), last_reading: 0, cache: CacheTable::new(), saved }
    }

    /// Puts `data` in the cache under `loc`, due at instant `due`, replacing
    /// any chunk cached there before.
    pub fn cache_until(&mut self, loc: ChunkLocation, data: ChunkData, due: u64)
        ensures
            final(self).cached() == old(self).cached().insert(loc.key(), (due, ChunkSaveCache { data })),
            final(self).saved() == old(self).saved(),
            final(self).spec_default_cache_time() == old(self).spec_default_cache_time(),
            final(self).clock_reading() == old(self).clock_reading(),
    {
        let k = loc.as_key();
        let _replaced = self.cache.insert(k, (due, ChunkSaveCache { data }));
    }

    /// Puts `data` in the cache under `loc`, due `duration` nanoseconds after
    /// the clock reading taken now (saturating at the end of the clock).
    pub fn cache_with_duration(&mut self, loc: ChunkLocation, data: ChunkData, duration: u64)
        ensures
            final(self).cached().dom() == old(self).cached().dom().insert(loc.key()),
            final(self).cached()[loc.key()].1 == (ChunkSaveCache { data }),
            final(self).cached()[loc.key()].0 >= duration,
            final(self).cached()[loc.key()].0 == due_after(final(self).clock_reading(), duration),
            final(self).clock_reading() >= old(self).clock_reading(),
            final(self).cached().remove(loc.key()) == old(self).cached().remove(loc.key()),
            final(self).saved() == old(self).saved(),
            final(self).spec_default_cache_time() == old(self).spec_default_cache_time(),
    {
        let now = self.read_clock();
        let due = now.saturating_add(duration);
        self.cache_until(loc, data, due);
        proof {
            assert(self.cached().remove(loc.key()) =~= old(self).cached().remove(loc.key()));
        }
    }

    /// Puts `data` in the cache under `loc` for the default cache time.
    pub fn cache(&mut self, loc: ChunkLocation, data: ChunkData)
        ensures
            final(self).cached().dom() == old(self).cached().dom().insert(loc.key()),
            final(self).cached()[loc.key()].1 == (ChunkSaveCache { data }),
            final(self).cached()[loc.key()].0 >= old(self).spec_default_cache_time(),
            final(self).cached()[loc.key()].0 == due_after(
                final(self).clock_reading(),
                old(self).spec_default_cache_time(),
            ),
            final(self).clock_reading() >= old(self).clock_reading(),
            final(self).cached().remove(loc.key()) == old(self).cached().remove(loc.key()),
            final(self).saved() == old(self).saved(),
            final(self).spec_default_cache_time() == old(self).spec_default_cache_time(),
    {
        let d = self.default_cache_time;
        self.cache_with_duration(loc, data, d);
    }

    /// Takes out every cached chunk that is due at instant `now`, records its
    /// location as saved, and hands the chunks out to be written.
    pub fn process_at(&mut self, now: u64) -> (r: Vec<(ChunkLocation, ChunkSaveCache)>)
        ensures
            final(self).cached() == not_due(old(self).cached(), now),
            final(self).saved() == old(self).saved().union(due_keys(old(self).cached(), now)),
            final(self).spec_default_cache_time() == old(self).spec_default_cache_time(),
            lists_entries(r@, old(self).cached(), due_keys(old(self).cached(), now)),
            final(self).clock_reading() == old(self).clock_reading(),
    {
        let ghost m = self.cached();
        let ghost s0 = self.saved();
        let keys = self.cache.keys();
        let mut out: Vec<(ChunkLocation, ChunkSaveCache)> = Vec::new();
        let mut i: usize = 0;
        while i < keys.len()
            invariant
                i <= keys@.len(),
                keys@.no_duplicates(),
                forall|k: ChunkKey| keys@.contains(k) <==> m.dom().contains(k),
                cache_table_contents(self.cache) == Map::new(
                    |k: ChunkKey| m.dom().contains(k) && (!keys@.take(i as int).contains(k) || m[k].0 > now),
                    |k: ChunkKey| m[k],
                ),
                key_set_contents(self.saved) == s0.union(
                    Set::new(|k: ChunkKey| keys@.take(i as int).contains(k) && m[k].0 <= now),
                ),
                self.default_cache_time == old(self).default_cache_time,
                self.last_reading == old(self).last_reading,
                lists_entries(
                    out@,
                    m,
                    Set::new(|k: ChunkKey| keys@.take(i as int).contains(k) && m[k].0 <= now),
                ),
            decreases keys@.len() - i,
        {
            let k = keys[i];
            let ghost before = out@;
            proof {
                assert(keys@.contains(k));
                assert(!keys@.take(i as int).contains(k)) by {
                    if keys@.take(i as int).contains(k) {
                        let j = choose|j: int| 0 <= j < i && keys@.take(i as int)[j] == k;
                        assert(keys@[j] == keys@[i as int]);
                    }
                }
            }
            let due = self.cache.due(&k);
            let due = match due {
                Some(d) => d,
                None => {
                    proof {
                        assert(false);
                    }
                    0
                },
            };
            if now >= due {
                let entry = self.cache.remove(&k);
                match entry {
                    Some((_, c)) => {
                        self.saved.insert(k);
                        out.push((ChunkLocation::of_key(k), c));
                    },
                    None => {},
                }
            }
            proof {
                let t1 = keys@.take(i + 1);
                let t0 = keys@.take(i as int);
                assert forall|kk: ChunkKey| t1.contains(kk) <==> (t0.contains(kk) || kk == k) by {
                    if t1.contains(kk) {
                        let j = choose|j: int| 0 <= j < i + 1 && t1[j] == kk;
                        if j < i {
                            assert(t0[j] == kk);
                        }
                    }
                    if t0.contains(kk) {
                        let j = choose|j: int| 0 <= j < i && t0[j] == kk;
                        assert(t1[j] == kk);
                    }
                    if kk == k {
                        assert(t1[i as int] == kk);
                    }
                }
                let d1 = Set::new(|kk: ChunkKey| t1.contains(kk) && m[kk].0 <= now);
                let d0 = Set::new(|kk: ChunkKey| t0.contains(kk) && m[kk].0 <= now);
                assert(cache_table_contents(self.cache) =~= Map::new(
                    |kk: ChunkKey| m.dom().contains(kk) && (!t1.contains(kk) || m[kk].0 > now),
                    |kk: ChunkKey| m[kk],
                ));
                assert(key_set_contents(self.saved) =~= s0.union(d1));
                if now >= due {
                    assert(out@ == before.push((ChunkLocation::from_key(k), m[k].1)));
                    assert forall|kk: ChunkKey| d1.contains(kk) implies exists|j: int|
                        0 <= j < out@.len() && #[trigger] out@[j].0.key() == kk by {
                        if kk == k {
                            assert(out@[before.len() as int].0.key() == kk);
                        } else {
                            assert(d0.contains(kk));
                            let j = choose|j: int| 0 <= j < before.len() && #[trigger] before[j].0.key() == kk;
                            assert(out@[j].0.key() == kk);
                        }
                    }
                    assert forall|a: int, b: int| 0 <= a < b < out@.len() implies out@[a].0 != out@[b].0 by {
                        if b == before.len() {
                            assert(d0.contains(before[a].0.key()));
                        }
                    }
                } else {
                    assert(d1 =~= d0);
                }
            }
            i = i + 1;
        }
        proof {
            assert(keys@.take(keys@.len() as int) =~= keys@);
            assert(Set::new(|k: ChunkKey| keys@.take(keys@.len() as int).contains(k) && m[k].0 <= now)
                =~= due_keys(m, now));
            assert(cache_table_contents(self.cache) =~= not_due(m, now));
        }
        out
    }

    /// Takes out every cached chunk that is due at the clock reading taken
    /// now.
    pub fn process(&mut self) -> (r: Vec<(ChunkLocation, ChunkSaveCache)>)
        ensures
            final(self).clock_reading() >= old(self).clock_reading(),
            final(self).cached() == not_due(old(self).cached(), final(self).clock_reading()),
            final(self).saved() == old(self).saved().union(
                due_keys(old(self).cached(), final(self).clock_reading()),
            ),
            lists_entries(r@, old(self).cached(), due_keys(old(self).cached(), final(self).clock_reading())),
            exists|now: u64|
                {
                    &&& final(self).cached() == not_due(old(self).cached(), now)
                    &&& final(self).saved() == old(self).saved().union(due_keys(old(self).cached(), now))
                    &&& lists_entries(r@, old(self).cached(), due_keys(old(self).cached(), now))
                },
            final(self).spec_default_cache_time() == old(self).spec_default_cache_time(),
    {
        let now = self.read_clock();
        self.process_at(now)
    }

    /// Takes out every cached chunk, whether due or not.
    pub fn save_all(&mut self) -> (r: Vec<(ChunkLocation, ChunkSaveCache)>)
        ensures
            final(self).cached() == no_cached(),
            final(self).saved() == old(self).saved().union(old(self).cached().dom()),
            final(self).spec_default_cache_time() == old(self).spec_default_cache_time(),
            lists_entries(r@, old(self).cached(), old(self).cached().dom()),
            final(self).clock_reading() == old(self).clock_reading(),
    {
        let ghost m = self.cached();
        let r = self.process_at(u64::MAX);
        proof {
            assert(due_keys(m, u64::MAX) =~= m.dom());
            assert(not_due(m, u64::MAX) =~= no_cached());
        }
        r
    }

    /// Looks a chunk up: takes it out of the cache if it waits there, else
    /// reports whether it has been written out.
    pub fn try_get(&mut self, loc: &ChunkLocation) -> (r: SaveLookup)
        ensures
            old(self).cached().dom().contains(loc.key()) ==> (r matches SaveLookup::Cached(c) && c
                == old(self).cached()[loc.key()].1 && final(self).cached() == old(self).cached().remove(
                loc.key(),
            )),
            !old(self).cached().dom().contains(loc.key()) ==> final(self).cached() == old(self).cached(),
            !old(self).cached().dom().contains(loc.key()) && old(self).saved().contains(loc.key()) ==> r
                is Saved,
            !old(self).cached().dom().contains(loc.key()) && !old(self).saved().contains(loc.key()) ==> r
                is Absent,
            final(self).saved() == old(self).saved(),
            final(self).spec_default_cache_time() == old(self).spec_default_cache_time(),
            final(self).clock_reading() == old(self).clock_reading(),
    {
        let k = loc.as_key();
        match self.cache.remove(&k) {
            Some((_, c)) => SaveLookup::Cached(c),
            None => {
                if self.saved.contains(&k) {
                    SaveLookup::Saved
                } else {
                    SaveLookup::Absent
                }
            },
        }
    }

    /// Forgets that `loc` was written out, after reading it back failed.
    pub fn forget_saved(&mut self, loc: &ChunkLocation)
        ensures
            final(self).saved() == old(self).saved().remove(loc.key()),
            final(self).cached() == old(self).cached(),
            final(self).spec_default_cache_time() == old(self).spec_default_cache_time(),
            final(self).clock_reading() == old(self).clock_reading(),
    {
        let k = loc.as_key();
        self.saved.remove(&k);
    }
}

} // verus!
