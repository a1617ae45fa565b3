//! A bounded, depth-aware memo of search results, kept in an `lru::LruCache`.
//!
//! The cache itself is not verified. Its contents are named by
//! [`cache_entries`], most recently used first, and its limit by
//! [`cache_capacity`]; the four functions that touch it state what the
//! `lru` crate does over these two names. Everything else here is proved
//! from those statements.

use lru::LruCache;
use vstd::prelude::*;

use crate::score::TimedScore;

verus! {

/// A finished search result as a table keeps it: the chosen move by its
/// place in the list of generated moves, the outcome it leads to, and the
/// number of nodes the search visited.
#[derive(Copy, Clone, Debug, PartialEq, Eq, Structural)]
pub struct StoredStats {
    pub index: usize,
    pub score: TimedScore,
    pub nodes_visited: u64,
}

/// What a table holds under one key: the result and the ply budget of the
/// search that produced it.
pub type Entry = (StoredStats, u32);

/// `lru::LruCache`, opaque to the verifier.
#[verifier::external_type_specification]
#[verifier::external_body]
#[verifier::reject_recursive_types(K)]
#[verifier::reject_recursive_types(V)]
#[verifier::reject_recursive_types(S)]
pub struct ExLruCache<K, V, S>(LruCache<K, V, S>);

/// `lru::DefaultHasher`, the hasher a cache is built with unless another
/// is named; opaque to the verifier.
#[verifier::external_type_specification]
#[verifier::external_body]
pub struct ExDefaultHasher(lru::DefaultHasher);

/// The key-value pairs in a cache, from the most recently used to the least.
pub uninterp spec fn cache_entries(cache: LruCache<u64, Entry>) -> Seq<(u64, Entry)>;

/// The number of pairs a cache was made to hold.
pub uninterp spec fn cache_capacity(cache: LruCache<u64, Entry>) -> nat;

/// `LruCache::new`: an empty cache with the given limit. The capacity is
/// allocated at once, so the limit has to be one the allocator can serve.
#[verifier::external_body]
fn cache_new(capacity: usize) -> (cache: LruCache<u64, Entry>)
    requires
        capacity > 0,
    ensures
        cache_entries(cache) == Seq::<(u64, Entry)>::empty(),
        cache_capacity(cache) == capacity,
{
    LruCache::new(core::num::NonZeroUsize::new(capacity).unwrap())
}

/// `LruCache::get`: the value under `key`, if any. A pair that is found moves
/// to the front; nothing else changes.
#[verifier::external_body]
fn cache_get(cache: &mut LruCache<u64, Entry>, key: u64) -> (found: Option<Entry>)
    ensures
        cache_capacity(*final(cache)) == cache_capacity(*old(cache)),
        match found {
            Some(value) => exists|i: int|
                0 <= i < cache_entries(*old(cache)).len() && #[trigger] cache_entries(
                    *old(cache),
                )[i] == (key, value) && cache_entries(*final(cache)) == seq![(key, value)]
                    + cache_entries(*old(cache)).remove(i),
            None => cache_entries(*final(cache)) == cache_entries(*old(cache)) && forall|i: int|
                0 <= i < cache_entries(*old(cache)).len() ==> (#[trigger] cache_entries(
                    *old(cache),
                )[i]).0 != key,
        },
{
    cache.get(&key).copied()
}

/// `LruCache::peek`: the value under `key`, if any. The cache is not changed.
#[verifier::external_body]
fn cache_peek(cache: &LruCache<u64, Entry>, key: u64) -> (found: Option<Entry>)
    ensures
        match found {
            Some(value) => exists|i: int|
                0 <= i < cache_entries(*cache).len() && #[trigger] cache_entries(*cache)[i] == (
                    key,
                    value,
                ),
            None => forall|i: int|
                0 <= i < cache_entries(*cache).len() ==> (#[trigger] cache_entries(*cache)[i]).0
                    != key,
        },
{
    cache.peek(&key).copied()
}

/// `LruCache::put`: stores `value` under `key` at the front. A pair already
/// under `key` is replaced and its value returned. Otherwise, if the cache is
/// full, the pair at the back is dropped to make room.
#[verifier::external_body]
fn cache_put(cache: &mut LruCache<u64, Entry>, key: u64, value: Entry) -> (previous: Option<Entry>)
    ensures
        cache_capacity(*final(cache)) == cache_capacity(*old(cache)),
        match previous {
            Some(before) => exists|i: int|
                0 <= i < cache_entries(*old(cache)).len() && #[trigger] cache_entries(
                    *old(cache),
                )[i] == (key, before) && cache_entries(*final(cache)) == seq![(key, value)]
                    + cache_entries(*old(cache)).remove(i),
            None => {
                &&& forall|i: int|
                    0 <= i < cache_entries(*old(cache)).len() ==> (#[trigger] cache_entries(
                        *old(cache),
                    )[i]).0 != key
                &&& cache_entries(*old(cache)).len() == cache_capacity(*old(cache))
                    ==> cache_entries(*final(cache)) == seq![(key, value)] + cache_entries(
                    *old(cache),
                ).drop_last()
                &&& cache_entries(*old(cache)).len() != cache_capacity(*old(cache))
                    ==> cache_entries(*final(cache)) == seq![(key, value)] + cache_entries(
                    *old(cache),
                )
            },
        },
{
    cache.put(key, value)
}

/// Some pair of `entries` stands under `key`.
pub open spec fn has_key(entries: Seq<(u64, Entry)>, key: u64) -> bool {
    exists|i: int| 0 <= i < entries.len() && (#[trigger] entries[i]).0 == key
}

/// The place of the pair under `key`, where there is one.
pub open spec fn index_of(entries: Seq<(u64, Entry)>, key: u64) -> int {
    choose|i: int| 0 <= i < entries.len() && (#[trigger] entries[i]).0 == key
}

/// No key occurs twice.
pub open spec fn distinct_keys(entries: Seq<(u64, Entry)>) -> bool {
    forall|i: int, j: int|
        0 <= i < j < entries.len() ==> (#[trigger] entries[i]).0 != (#[trigger] entries[j]).0
}

/// What is stored under `key`: the result and the depth it was searched to.
pub open spec fn stored(entries: Seq<(u64, Entry)>, key: u64) -> Option<Entry> {
    if has_key(entries, key) {
        Some(entries[index_of(entries, key)].1)
    } else {
        None
    }
}

/// What a query for `key` at `depth` yields: the stored result, provided it
/// was searched at least that deep.
pub open spec fn lookup(entries: Seq<(u64, Entry)>, key: u64, depth: u32) -> Option<StoredStats> {
    match stored(entries, key) {
        Some((stats, reached)) => if reached >= depth {
            Some(stats)
        } else {
            None
        },
        None => None,
    }
}

/// The entries after `key` was accessed: its pair, if any, moves to the front.
pub open spec fn touched(entries: Seq<(u64, Entry)>, key: u64) -> Seq<(u64, Entry)> {
    if has_key(entries, key) {
        seq![entries[index_of(entries, key)]] + entries.remove(index_of(entries, key))
    } else {
        entries
    }
}

/// The entries after `value` was put under `key` in a table that holds at
/// most `capacity` pairs: the new pair stands at the front, in place of the
/// old pair under `key` or, in a full table without one, of the last pair.
pub open spec fn placed(entries: Seq<(u64, Entry)>, capacity: nat, key: u64, value: Entry) -> Seq<
    (u64, Entry),
> {
    if has_key(entries, key) {
        seq![(key, value)] + entries.remove(index_of(entries, key))
    } else if entries.len() == capacity {
        seq![(key, value)] + entries.drop_last()
    } else {
        seq![(key, value)] + entries
    }
}

/// The entries after an insertion: a result searched less deep than the one
/// already stored under `key` is refused, any other is placed.
pub open spec fn inserted(
    entries: Seq<(u64, Entry)>,
    capacity: nat,
    key: u64,
    stats: StoredStats,
    depth: u32,
) -> Seq<(u64, Entry)> {
    match stored(entries, key) {
        Some((_, reached)) => if reached > depth {
            entries
        } else {
            placed(entries, capacity, key, (stats, depth))
        },
        None => placed(entries, capacity, key, (stats, depth)),
    }
}

/// A table's entries are sound: within the limit, which is positive, and
/// with no key twice.
pub open spec fn sound(entries: Seq<(u64, Entry)>, capacity: nat) -> bool {
    &&& capacity > 0
    &&& entries.len() <= capacity
    &&& distinct_keys(entries)
}

/// Accessing a key keeps a table sound and changes nothing that is stored.
pub proof fn touched_keeps(entries: Seq<(u64, Entry)>, capacity: nat, key: u64, other: u64)
    requires
        sound(entries, capacity),
    ensures
        sound(touched(entries, key), capacity),
        touched(entries, key).len() == entries.len(),
        stored(touched(entries, key), other) == stored(entries, other),
        has_key(entries, key) ==> touched(entries, key)[0] == entries[index_of(entries, key)],
{
    let after = touched(entries, key);
    if has_key(entries, key) {
        let i = index_of(entries, key);
        assert forall|a: int| 0 <= a < after.len() implies exists|b: int|
            0 <= b < entries.len() && #[trigger] after[a] == entries[b] && (b == i <==> a == 0) && (
            a > 0 && a <= i ==> b == a - 1) && (a > i ==> b == a) by {
            if a == 0 {
                assert(after[a] == entries[i]);
            } else if a <= i {
                assert(after[a] == entries[a - 1]);
            } else {
                assert(after[a] == entries[a]);
            }
        }
        assert(distinct_keys(after)) by {
            assert forall|a: int, b: int| 0 <= a < b < after.len() implies (#[trigger] after[a]).0
                != (#[trigger] after[b]).0 by {
                let a0 = if a == 0 { i } else if a <= i { a - 1 } else { a };
                let b0 = if b <= i { b - 1 } else { b };
                assert(after[a] == entries[a0]);
                assert(after[b] == entries[b0]);
                assert(a0 != b0);
                if a0 < b0 {
                    assert(entries[a0].0 != entries[b0].0);
                } else {
                    assert(entries[b0].0 != entries[a0].0);
                }
            }
        }
        if has_key(entries, other) {
            let j = index_of(entries, other);
            let j1 = if j == i { 0 } else if j < i { j + 1 } else { j };
            assert(after[j1] == entries[j]);
            assert(has_key(after, other));
            let k = index_of(after, other);
            if k != j1 {
                if k < j1 {
                    assert(after[k].0 != after[j1].0);
                } else {
                    assert(after[j1].0 != after[k].0);
                }
            }
        } else {
            if has_key(after, other) {
                let k = index_of(after, other);
                let k0 = if k == 0 { i } else if k <= i { k - 1 } else { k };
                assert(after[k] == entries[k0]);
                assert(entries[k0].0 == other);
            }
        }
    }
}

/// Placing a pair keeps a table sound and puts the pair at the front. Every
/// other key keeps what it had, but for the last key of a full table that
/// had no pair under `key`: that one is gone.
pub proof fn placed_keeps(
    entries: Seq<(u64, Entry)>,
    capacity: nat,
    key: u64,
    value: Entry,
    other: u64,
)
    requires
        sound(entries, capacity),
    ensures
        sound(placed(entries, capacity, key, value), capacity),
        placed(entries, capacity, key, value)[0] == (key, value),
        stored(placed(entries, capacity, key, value), key) == Some(value),
        other != key ==> stored(placed(entries, capacity, key, value), other) == if !has_key(
            entries,
            key,
        ) && entries.len() == capacity && entries.last().0 == other {
            None
        } else {
            stored(entries, other)
        },
{
    let after = placed(entries, capacity, key, value);
    let rest = after.subrange(1, after.len() as int);
    let hit = has_key(entries, key);
    let i = index_of(entries, key);
    let full = entries.len() == capacity;
    // where each pair behind the new one stood before
    let origin = |a: int| if hit && a > i { a } else { a - 1 };
    assert(after[0] == (key, value));
    assert forall|a: int| 1 <= a < after.len() implies #[trigger] after[a] == entries[origin(a)]
        && 0 <= origin(a) < entries.len() && after[a].0 != key by {
        if hit {
            if a <= i {
                assert(after[a] == entries[a - 1]);
                assert(entries[a - 1].0 != entries[i].0);
            } else {
                assert(after[a] == entries[a]);
                assert(entries[i].0 != entries[a].0);
            }
        } else {
            assert(after[a] == entries[a - 1]);
        }
    }
    assert(distinct_keys(after)) by {
        assert forall|a: int, b: int| 0 <= a < b < after.len() implies (#[trigger] after[a]).0 != (
        #[trigger] after[b]).0 by {
            if a > 0 {
                assert(after[a] == entries[origin(a)]);
                assert(after[b] == entries[origin(b)]);
                assert(origin(a) < origin(b));
            }
        }
    }
    assert(has_key(after, key));
    let k = index_of(after, key);
    assert(k == 0);
    if other != key {
        if has_key(after, other) {
            let a = index_of(after, other);
            assert(a >= 1);
            assert(after[a] == entries[origin(a)]);
            assert(has_key(entries, other));
            let j = index_of(entries, other);
            if j != origin(a) {
                if j < origin(a) {
                    assert(entries[j].0 != entries[origin(a)].0);
                } else {
                    assert(entries[origin(a)].0 != entries[j].0);
                }
            }
            if !hit && full {
                assert(origin(a) < entries.len() - 1);
                assert(entries[origin(a)].0 != entries[entries.len() - 1].0);
            }
        } else if has_key(entries, other) {
            let j = index_of(entries, other);
            if hit {
                let a = if j < i { j + 1 } else { j };
                assert(j != i);
                assert(after[a] == entries[j]);
                assert(false);
            } else if full {
                if j < entries.len() - 1 {
                    assert(after[j + 1] == entries[j]);
                    assert(false);
                }
            } else {
                assert(after[j + 1] == entries[j]);
                assert(false);
            }
        }
    }
}

/// A stored result is never returned to a query that asks for a deeper
/// search than the one that produced it.
pub proof fn shallow_entries_are_not_returned(
    entries: Seq<(u64, Entry)>,
    key: u64,
    stats: StoredStats,
    reached: u32,
    depth: u32,
)
    requires
        stored(entries, key) == Some((stats, reached)),
    ensures
        depth > reached ==> lookup(entries, key, depth).is_none(),
        depth <= reached ==> lookup(entries, key, depth) == Some(stats),
{
}

/// Inserting a new key into a full table drops exactly the pair that was
/// used least recently: a later query for its key finds nothing, at any
/// depth, and every other key keeps what it had.
pub proof fn full_table_evicts_least_recent(
    entries: Seq<(u64, Entry)>,
    capacity: nat,
    key: u64,
    stats: StoredStats,
    depth: u32,
)
    requires
        sound(entries, capacity),
        entries.len() == capacity,
        !has_key(entries, key),
    ensures
        inserted(entries, capacity, key, stats, depth) == seq![(key, (stats, depth))]
            + entries.drop_last(),
        forall|d: u32|
            lookup(inserted(entries, capacity, key, stats, depth), entries.last().0, d).is_none(),
        forall|other: u64|
            other != key && other != entries.last().0 ==> stored(
                inserted(entries, capacity, key, stats, depth),
                other,
            ) == stored(entries, other),
        stored(inserted(entries, capacity, key, stats, depth), key) == Some((stats, depth)),
{
    let last = entries.last().0;
    assert(last != key) by {
        assert(entries[entries.len() - 1].0 == last);
    }
    placed_keeps(entries, capacity, key, (stats, depth), last);
    assert forall|other: u64| other != key && other != last implies stored(
        inserted(entries, capacity, key, stats, depth),
        other,
    ) == stored(entries, other) by {
        placed_keeps(entries, capacity, key, (stats, depth), other);
    }
}

/// An access makes a key the most recently used: its pair then stands
/// first, with the value it had.
pub proof fn accessed_key_moves_to_front(entries: Seq<(u64, Entry)>, capacity: nat, key: u64)
    requires
        sound(entries, capacity),
        has_key(entries, key),
    ensures
        touched(entries, key)[0].0 == key,
        touched(entries, key)[0].1 == stored(entries, key).unwrap(),
{
}

/// A bounded memo from position keys to search results. Each result is kept
/// with the ply budget of the search that produced it, and is handed out
/// only to a query that asks for no more than that. When the table is full,
/// a new key takes the place of the one used least recently.
pub struct TranspositionTable {
    cache: LruCache<u64, Entry>,
}

impl TranspositionTable {
    /// The stored pairs, most recently used first.
    pub closed spec fn entries(&self) -> Seq<(u64, Entry)> {
        cache_entries(self.cache)
    }

    /// The number of pairs the table holds at most.
    pub closed spec fn capacity(&self) -> nat {
        cache_capacity(self.cache)
    }

    /// The table is within its limit and holds no key twice.
    pub open spec fn wf(&self) -> bool {
        sound(self.entries(), self.capacity())
    }

    /// An empty table for at most `capacity` results.
    pub fn new(capacity: usize) -> (table: TranspositionTable)
        requires
            capacity > 0,
        ensures
            table.wf(),
            table.entries() == Seq::<(u64, Entry)>::empty(),
            table.capacity() == capacity,
    {
        TranspositionTable { cache: cache_new(capacity) }
    }

    /// The result stored under `key`, if it was searched to `depth` or
    /// deeper. A key that is present counts as used, whether or not its
    /// result is deep enough.
    pub fn get(&mut self, key: u64, depth: u32) -> (found: Option<StoredStats>)
        requires
            old(self).wf(),
        ensures
            final(self).wf(),
            final(self).capacity() == old(self).capacity(),
            found == lookup(old(self).entries(), key, depth),
            final(self).entries() == touched(old(self).entries(), key),
    {
        let ghost before = self.entries();
        proof {
            touched_keeps(before, self.capacity(), key, key);
        }
        match cache_get(&mut self.cache, key) {
            Some((stats, reached)) => {
                proof {
                    let i = choose|i: int|
                        0 <= i < before.len() && #[trigger] before[i] == (key, (stats, reached))
                            && self.entries() == seq![(key, (stats, reached))] + before.remove(i);
                    let j = index_of(before, key);
                    if i < j {
                        assert(before[i].0 != before[j].0);
                    } else if j < i {
                        assert(before[j].0 != before[i].0);
                    }
                }
                if reached >= depth {
                    Some(stats)
                } else {
                    None
                }
            },
            None => None,
        }
    }

    /// Stores `stats` under `key` as the result of a search to `depth`,
    /// unless a result of a deeper search is already there: then the table
    /// stays as it is.
    pub fn insert(&mut self, key: u64, stats: StoredStats, depth: u32)
        requires
            old(self).wf(),
        ensures
            final(self).wf(),
            final(self).capacity() == old(self).capacity(),
            final(self).entries() == inserted(
                old(self).entries(),
                old(self).capacity(),
                key,
                stats,
                depth,
            ),
    {
        let ghost before = self.entries();
        let keep = match cache_peek(&self.cache, key) {
            Some((_, reached)) => {
                proof {
                    let i = choose|i: int|
                        0 <= i < before.len() && (#[trigger] before[i]).0 == key && before[i].1.1
                            == reached;
                    let j = index_of(before, key);
                    if i < j {
                        assert(before[i].0 != before[j].0);
                    } else if j < i {
                        assert(before[j].0 != before[i].0);
                    }
                }
                reached > depth
            },
            None => false,
        };
        if !keep {
            proof {
                placed_keeps(before, self.capacity(), key, (stats, depth), key);
            }
            let previous = cache_put(&mut self.cache, key, (stats, depth));
            proof {
                match previous {
                    Some(value) => {
                        let i = choose|i: int|
                            0 <= i < before.len() && #[trigger] before[i] == (key, value)
                                && self.entries() == seq![(key, (stats, depth))] + before.remove(i);
                        let j = index_of(before, key);
                        if i < j {
                            assert(before[i].0 != before[j].0);
                        } else if j < i {
                            assert(before[j].0 != before[i].0);
                        }
                    },
                    None => {},
                }
            }
        }
    }
}

} // verus!
