//! A bounded least-recently-used cache of dequantized experts, keyed by layer
//! and expert. It decides what is kept; the weights themselves are held by
//! the caller under the same keys.

use vstd::prelude::*;

verus! {

/// One cached expert.
#[derive(Debug, Clone, Copy, PartialEq, Eq, Structural)]
pub struct CacheEntry {
    pub layer: usize,
    pub expert: usize,
    pub bytes: usize,
    /// The clock when it was last asked for.
    pub last_touch: u64,
}

/// Counters and occupancy of the cache.
#[derive(Debug, Clone, Copy, PartialEq, Eq, Structural)]
pub struct CacheStats {
    pub capacity_bytes: usize,
    pub used_bytes: usize,
    pub entries: usize,
    pub hits: u64,
    pub misses: u64,
    pub evictions: u64,
}

/// A bounded least-recently-used cache.
#[derive(Debug)]
pub struct ExpertCache {
    pub capacity_bytes: usize,
    pub entries: Vec<CacheEntry>,
    pub used_bytes: usize,
    pub clock: u64,
    pub hits: u64,
    pub misses: u64,
    pub evictions: u64,
}

/// What a lookup comes to.
#[derive(Debug, Clone, Copy, PartialEq, Eq, Structural)]
pub enum Lookup {
    /// The expert is larger than the whole cache: it is never kept.
    TooLarge,
    /// The expert is cached.
    Hit,
    /// The expert is not cached: load it, then offer it to the cache.
    Miss,
}

/// The bytes of a list of entries.
pub open spec fn total_bytes(v: Seq<CacheEntry>) -> nat
    decreases v.len(),
{
    if v.len() == 0 {
        0
    } else {
        total_bytes(v.drop_last()) + v.last().bytes as nat
    }
}

/// The place of the entry of a key from `from` on.
pub open spec fn entry_from(v: Seq<CacheEntry>, layer: usize, expert: usize, from: int) -> Option<
    int,
>
    decreases v.len() - from,
{
    if from < 0 || from >= v.len() {
        None
    } else if v[from].layer == layer && v[from].expert == expert {
        Some(from)
    } else {
        entry_from(v, layer, expert, from + 1)
    }
}

/// Is the key cached?
pub open spec fn cached(v: Seq<CacheEntry>, layer: usize, expert: usize) -> bool {
    exists|i: int| 0 <= i < v.len() && (#[trigger] v[i]).layer == layer && v[i].expert == expert
}

/// The place of the entry of the first `n` that was touched the longest ago.
pub open spec fn oldest_upto(v: Seq<CacheEntry>, n: nat) -> int
    decreases n,
{
    if n <= 1 {
        0
    } else {
        let o = oldest_upto(v, (n - 1) as nat);
        if v[n - 1].last_touch < v[o].last_touch {
            n - 1
        } else {
            o
        }
    }
}

/// The place of the least recently touched entry.
pub open spec fn oldest(v: Seq<CacheEntry>) -> int {
    oldest_upto(v, v.len())
}

/// The entries with entry `i` touched at time `t`.
pub open spec fn touched(v: Seq<CacheEntry>, i: int, t: u64) -> Seq<CacheEntry> {
    v.update(i, CacheEntry { last_touch: t, ..v[i] })
}

/// What is left after the least recently touched entries were dropped until
/// the rest fits in `room` bytes.
pub open spec fn fitted(v: Seq<CacheEntry>, room: int) -> Seq<CacheEntry>
    decreases v.len(),
{
    if v.len() == 0 || total_bytes(v) <= room {
        v
    } else {
        proof {
            lemma_oldest(v, v.len());
        }
        fitted(v.remove(oldest(v)), room)
    }
}

/// The least recently touched entry is one, and none was touched earlier.
pub proof fn lemma_oldest(v: Seq<CacheEntry>, n: nat)
    requires
        1 <= n <= v.len(),
    ensures
        0 <= oldest_upto(v, n) < n,
        forall|i: int|
            0 <= i < n ==> v[oldest_upto(v, n)].last_touch <= (#[trigger] v[i]).last_touch,
    decreases n,
{
    if n > 1 {
        lemma_oldest(v, (n - 1) as nat);
    }
}

/// Removing an entry takes its bytes off the total.
proof fn lemma_total_remove(v: Seq<CacheEntry>, i: int)
    requires
        0 <= i < v.len(),
    ensures
        total_bytes(v.remove(i)) + v[i].bytes == total_bytes(v),
    decreases v.len(),
{
    let n = v.len() - 1;
    if i == n {
        assert(v.remove(i) =~= v.drop_last());
    } else {
        lemma_total_remove(v.drop_last(), i);
        assert(v.remove(i).drop_last() =~= v.drop_last().remove(i));
        assert(v.remove(i).last() == v.last());
    }
}

/// A search finds the key exactly when it is cached.
proof fn lemma_entry_from(v: Seq<CacheEntry>, layer: usize, expert: usize, from: int)
    requires
        0 <= from,
    ensures
        match entry_from(v, layer, expert, from) {
            Some(i) => from <= i < v.len() && v[i].layer == layer && v[i].expert == expert,
            None => forall|i: int|
                from <= i < v.len() ==> !((#[trigger] v[i]).layer == layer && v[i].expert
                    == expert),
        },
    decreases v.len() - from,
{
    if from < v.len() {
        lemma_entry_from(v, layer, expert, from + 1);
    }
}

impl ExpertCache {
    /// The occupancy is exact and within the capacity; no key is cached
    /// twice; no two entries were touched at the same time, none in the
    /// future.
    pub open spec fn wf(self) -> bool {
        &&& self.used_bytes == total_bytes(self.entries@)
        &&& self.used_bytes <= self.capacity_bytes
        &&& self.capacity_bytes > 0
        &&& forall|i: int, j: int|
            0 <= i < j < self.entries@.len() ==> {
                ||| (#[trigger] self.entries@[i]).layer != (#[trigger] self.entries@[j]).layer
                ||| self.entries@[i].expert != self.entries@[j].expert
            }
        &&& forall|i: int, j: int|
            0 <= i < j < self.entries@.len() ==> (#[trigger] self.entries@[i]).last_touch
                != (#[trigger] self.entries@[j]).last_touch
        &&& forall|i: int|
            0 <= i < self.entries@.len() ==> (#[trigger] self.entries@[i]).last_touch
                <= self.clock
    }

    /// An empty cache.
    pub fn new(capacity_bytes: usize) -> (r: Self)
        requires
            capacity_bytes > 0,
        ensures
            r.wf(),
            r.capacity_bytes == capacity_bytes,
            r.entries@.len() == 0,
            r.clock == 0,
            r.hits == 0,
            r.misses == 0,
            r.evictions == 0,
    {
        ExpertCache {
            capacity_bytes,
            entries: Vec::new(),
            used_bytes: 0,
            clock: 0,
            hits: 0,
            misses: 0,
            evictions: 0,
        }
    }

    /// Find a key.
    fn find(&self, layer: usize, expert: usize) -> (r: Option<usize>)
        ensures
            match r {
                Some(i) => entry_from(self.entries@, layer, expert, 0) == Some(i as int) && i
                    < self.entries@.len(),
                None => entry_from(self.entries@, layer, expert, 0) is None,
            },
    {
        let mut i: usize = 0;
        while i < self.entries.len()
            invariant
                i <= self.entries@.len(),
                entry_from(self.entries@, layer, expert, 0) == entry_from(
                    self.entries@,
                    layer,
                    expert,
                    i as int,
                ),
            decreases self.entries@.len() - i,
        {
            if self.entries[i].layer == layer && self.entries[i].expert == expert {
                return Some(i);
            }
            i += 1;
        }
        None
    }

    /// Ask for an expert of `entry_bytes`: a hit touches it; a miss is
    /// counted; an expert larger than the cache is not looked for at all.
    pub fn lookup(&mut self, layer: usize, expert: usize, entry_bytes: usize) -> (r: Lookup)
        requires
            old(self).wf(),
            old(self).clock < u64::MAX,
            old(self).hits < u64::MAX,
            old(self).misses < u64::MAX,
        ensures
            final(self).wf(),
            final(self).capacity_bytes == old(self).capacity_bytes,
            final(self).evictions == old(self).evictions,
            r == (if entry_bytes > old(self).capacity_bytes {
                Lookup::TooLarge
            } else if cached(old(self).entries@, layer, expert) {
                Lookup::Hit
            } else {
                Lookup::Miss
            }),
            match r {
                Lookup::TooLarge => *final(self) == *old(self),
                Lookup::Hit => {
                    let i = entry_from(old(self).entries@, layer, expert, 0)->0;
                    &&& final(self).clock == old(self).clock + 1
                    &&& final(self).hits == old(self).hits + 1
                    &&& final(self).misses == old(self).misses
                    &&& 0 <= i < old(self).entries@.len()
                    &&& final(self).entries@ == touched(
                        old(self).entries@,
                        i,
                        (old(self).clock + 1) as u64,
                    )
                },
                Lookup::Miss => {
                    &&& final(self).clock == old(self).clock + 1
                    &&& final(self).hits == old(self).hits
                    &&& final(self).misses == old(self).misses + 1
                    &&& final(self).entries@ == old(self).entries@
                },
            },
    {
        if entry_bytes > self.capacity_bytes {
            return Lookup::TooLarge;
        }
        proof {
            lemma_entry_from(self.entries@, layer, expert, 0);
        }
        let at: Option<usize> = self.find(layer, expert);
        self.clock = self.clock + 1;
        match at {
            Some(i) => {
                let e: CacheEntry = self.entries[i];
                let fresh: CacheEntry = CacheEntry {
                    layer: e.layer,
                    expert: e.expert,
                    bytes: e.bytes,
                    last_touch: self.clock,
                };
                let ghost before = self.entries@;
                self.entries.set(i, fresh);
                self.hits = self.hits + 1;
                proof {
                    assert(before[i as int].layer == layer);
                    lemma_total_update(before, i as int, fresh);
                    assert(self.entries@ =~= before.update(i as int, fresh));
                }
                Lookup::Hit
            },
            None => {
                self.misses = self.misses + 1;
                Lookup::Miss
            },
        }
    }

    /// Keep a loaded expert, dropping the least recently touched entries
    /// until it fits. An expert that came in meanwhile is kept and touched.
    pub fn insert(&mut self, layer: usize, expert: usize, entry_bytes: usize)
        requires
            old(self).wf(),
            old(self).clock < u64::MAX,
            old(self).evictions + old(self).entries@.len() <= u64::MAX,
            entry_bytes <= old(self).capacity_bytes,
        ensures
            final(self).wf(),
            final(self).capacity_bytes == old(self).capacity_bytes,
            final(self).clock == old(self).clock + 1,
            final(self).hits == old(self).hits,
            final(self).misses == old(self).misses,
            cached(final(self).entries@, layer, expert),
            if cached(old(self).entries@, layer, expert) {
                let i = entry_from(old(self).entries@, layer, expert, 0)->0;
                &&& final(self).evictions == old(self).evictions
                &&& final(self).entries@ == touched(
                    old(self).entries@,
                    i,
                    (old(self).clock + 1) as u64,
                )
            } else {
                let kept = fitted(old(self).entries@, old(self).capacity_bytes - entry_bytes);
                &&& final(self).evictions == old(self).evictions + (old(self).entries@.len()
                    - kept.len())
                &&& final(self).entries@ == kept.push(
                    (CacheEntry {
                        layer,
                        expert,
                        bytes: entry_bytes,
                        last_touch: (old(self).clock + 1) as u64,
                    }),
                )
            },
    {
        proof {
            lemma_entry_from(self.entries@, layer, expert, 0);
        }
        let at: Option<usize> = self.find(layer, expert);
        self.clock = self.clock + 1;
        let now: u64 = self.clock;
        match at {
            Some(i) => {
                let e: CacheEntry = self.entries[i];
                let fresh: CacheEntry = CacheEntry {
                    layer: e.layer,
                    expert: e.expert,
                    bytes: e.bytes,
                    last_touch: now,
                };
                let ghost before = self.entries@;
                self.entries.set(i, fresh);
                proof {
                    assert(before[i as int].layer == layer);
                    lemma_total_update(before, i as int, fresh);
                    assert(self.entries@ =~= before.update(i as int, fresh));
                    assert(self.entries@[i as int].layer == layer);
                }
            },
            None => {
                let room: usize = self.capacity_bytes - entry_bytes;
                while self.used_bytes > room
                    invariant
                        self.used_bytes == total_bytes(self.entries@),
                        self.capacity_bytes == old(self).capacity_bytes,
                        self.used_bytes <= self.capacity_bytes,
                        self.clock == old(self).clock + 1,
                        self.hits == old(self).hits,
                        self.misses == old(self).misses,
                        room == self.capacity_bytes - entry_bytes,
                        self.evictions + self.entries@.len() == old(self).evictions + old(
                            self,
                        ).entries@.len(),
                        old(self).evictions + old(self).entries@.len() <= u64::MAX,
                        self.entries@.len() <= old(self).entries@.len(),
                        fitted(old(self).entries@, room as int) == fitted(
                            self.entries@,
                            room as int,
                        ),
                        forall|i: int, j: int|
                            0 <= i < j < self.entries@.len() ==> {
                                ||| (#[trigger] self.entries@[i]).layer != (
                                #[trigger] self.entries@[j]).layer
                                ||| self.entries@[i].expert != self.entries@[j].expert
                            },
                        forall|i: int, j: int|
                            0 <= i < j < self.entries@.len() ==> (
                            #[trigger] self.entries@[i]).last_touch != (
                            #[trigger] self.entries@[j]).last_touch,
                        forall|i: int|
                            0 <= i < self.entries@.len() ==> (
                            #[trigger] self.entries@[i]).last_touch < self.clock,
                        forall|i: int|
                            0 <= i < self.entries@.len() ==> !((
                            #[trigger] self.entries@[i]).layer == layer && self.entries@[i].expert
                                == expert),
                    decreases self.entries@.len(),
                {
                    proof {
                        if self.entries@.len() == 0 {
                            assert(total_bytes(self.entries@) == 0);
                        }
                        lemma_oldest(self.entries@, self.entries@.len());
                        lemma_total_remove(self.entries@, oldest(self.entries@));
                    }
                    let mut o: usize = 0;
                    let mut i: usize = 1;
                    while i < self.entries.len()
                        invariant
                            1 <= i <= self.entries@.len(),
                            o < self.entries@.len(),
                            o == oldest_upto(self.entries@, i as nat),
                        decreases self.entries@.len() - i,
                    {
                        if self.entries[i].last_touch < self.entries[o].last_touch {
                            o = i;
                        }
                        i += 1;
                    }
                    let ghost before = self.entries@;
                    let gone: CacheEntry = self.entries.remove(o);
                    self.used_bytes = self.used_bytes - gone.bytes;
                    self.evictions = self.evictions + 1;
                    proof {
                        assert forall|i: int| 0 <= i < self.entries@.len() implies (
                        #[trigger] self.entries@[i]) == before[if i < o {
                            i
                        } else {
                            i + 1
                        }] by {}
                    }
                }
                proof {
                    assert(fitted(self.entries@, room as int) == self.entries@);
                }
                let fresh: CacheEntry = CacheEntry {
                    layer,
                    expert,
                    bytes: entry_bytes,
                    last_touch: now,
                };
                let ghost kept = self.entries@;
                self.used_bytes = self.used_bytes + entry_bytes;
                self.entries.push(fresh);
                proof {
                    assert(self.entries@.drop_last() =~= kept);
                    assert(self.entries@[kept.len() as int] == fresh);
                }
            },
        }
    }

    /// Counters and occupancy.
    pub fn stats(&self) -> (r: CacheStats)
        ensures
            r == (CacheStats {
                capacity_bytes: self.capacity_bytes,
                used_bytes: self.used_bytes,
                entries: self.entries@.len() as usize,
                hits: self.hits,
                misses: self.misses,
                evictions: self.evictions,
            }),
    {
        CacheStats {
            capacity_bytes: self.capacity_bytes,
            used_bytes: self.used_bytes,
            entries: self.entries.len(),
            hits: self.hits,
            misses: self.misses,
            evictions: self.evictions,
        }
    }
}

/// Touching an entry changes no bytes.
proof fn lemma_total_update(v: Seq<CacheEntry>, i: int, e: CacheEntry)
    requires
        0 <= i < v.len(),
        e.bytes == v[i].bytes,
    ensures
        total_bytes(v.update(i, e)) == total_bytes(v),
    decreases v.len(),
{
    if i == v.len() - 1 {
        assert(v.update(i, e).drop_last() =~= v.drop_last());
    } else {
        lemma_total_update(v.drop_last(), i, e);
        assert(v.update(i, e).drop_last() =~= v.drop_last().update(i, e));
    }
}

/// What is dropped to make room was touched no later than anything that
/// stays.
pub proof fn evictions_take_the_least_recent(v: Seq<CacheEntry>, room: int, gone: int, kept: int)
    requires
        0 <= gone < v.len(),
        0 <= kept < fitted(v, room).len(),
        !fitted(v, room).contains(v[gone]),
    ensures
        v[gone].last_touch <= fitted(v, room)[kept].last_touch,
    decreases v.len(),
{
    if v.len() == 0 || total_bytes(v) <= room {
        assert(v[gone] == fitted(v, room)[gone]);
    } else {
        let o = oldest(v);
        lemma_oldest(v, v.len());
        let rest = v.remove(o);
        lemma_fitted_is_part(rest, room, kept);
        let q = choose|q: int| 0 <= q < rest.len() && rest[q] == fitted(rest, room)[kept];
        assert(rest[q] == v[if q < o {
            q
        } else {
            q + 1
        }]);
        if gone != o {
            let g = if gone < o {
                gone
            } else {
                gone - 1
            };
            assert(rest[g] == v[gone]);
            evictions_take_the_least_recent(rest, room, g, kept);
        }
    }
}

/// What stays was there before.
proof fn lemma_fitted_is_part(v: Seq<CacheEntry>, room: int, i: int)
    requires
        0 <= i < fitted(v, room).len(),
    ensures
        v.contains(fitted(v, room)[i]),
    decreases v.len(),
{
    if v.len() == 0 || total_bytes(v) <= room {
        assert(v[i] == fitted(v, room)[i]);
    } else {
        let o = oldest(v);
        lemma_oldest(v, v.len());
        let rest = v.remove(o);
        lemma_fitted_is_part(rest, room, i);
        let q = choose|q: int| 0 <= q < rest.len() && rest[q] == fitted(rest, room)[i];
        assert(rest[q] == v[if q < o {
            q
        } else {
            q + 1
        }]);
    }
}

/// Touching an entry changes when it was used and nothing else: the same
/// experts are cached, with the same bytes.
pub proof fn a_touch_keeps_the_contents(v: Seq<CacheEntry>, i: int, t: u64)
    requires
        0 <= i < v.len(),
    ensures
        forall|l: usize, e: usize| #[trigger] cached(touched(v, i, t), l, e) == cached(v, l, e),
        total_bytes(touched(v, i, t)) == total_bytes(v),
{
    let after = touched(v, i, t);
    lemma_total_update(v, i, after[i]);
    assert(after =~= v.update(i, after[i]));
    assert forall|l: usize, e: usize| #[trigger] cached(after, l, e) == cached(v, l, e) by {
        if cached(after, l, e) {
            let k = choose|k: int|
                0 <= k < after.len() && (#[trigger] after[k]).layer == l && after[k].expert == e;
            assert(v[k].layer == l);
        }
        if cached(v, l, e) {
            let k = choose|k: int|
                0 <= k < v.len() && (#[trigger] v[k]).layer == l && v[k].expert == e;
            assert(after[k].layer == l);
        }
    }
}

} // verus!
