//! What a least-recently-used map holds: its entries, the most recently used first.

use vstd::prelude::*;

verus! {

/// Whether a key is among the entries.
pub open spec fn has_key<K, V>(entries: Seq<(K, V)>, key: K) -> bool {
    exists|i: int| 0 <= i < entries.len() && #[trigger] entries[i].0 == key
}

/// Whether the first entry with a key stands at `i`.
pub open spec fn first_at<K, V>(entries: Seq<(K, V)>, key: K, i: int) -> bool {
    &&& 0 <= i < entries.len()
    &&& entries[i].0 == key
    &&& forall|j: int| 0 <= j < i ==> #[trigger] entries[j].0 != key
}

/// Where a key stands.
pub open spec fn position<K, V>(entries: Seq<(K, V)>, key: K) -> int {
    choose|i: int| first_at(entries, key, i)
}

/// The value under a key.
pub open spec fn lookup<K, V>(entries: Seq<(K, V)>, key: K) -> Option<V> {
    if has_key(entries, key) {
        Some(entries[position(entries, key)].1)
    } else {
        None
    }
}

/// The entries after a key was looked up: its entry has become the most recently used.
pub open spec fn touched<K, V>(entries: Seq<(K, V)>, key: K) -> Seq<(K, V)> {
    if has_key(entries, key) {
        seq![entries[position(entries, key)]] + entries.remove(position(entries, key))
    } else {
        entries
    }
}

/// Whether `after` can be what a map of at most `limit` entries holds after `value` was
/// put under `key`, where `taken` says whether the map took it.
///
/// A value under a known key is replaced and becomes the most recently used. A new entry
/// becomes the most recently used, and entries leave from the other end: as many as the
/// limit asks for, and more where the map can not get the memory to grow. A map that gets
/// no memory at all does not take the entry, and one with the limit zero takes none.
pub open spec fn put<K, V>(
    before: Seq<(K, V)>,
    limit: nat,
    key: K,
    value: V,
    taken: bool,
    after: Seq<(K, V)>,
) -> bool {
    if has_key(before, key) {
        taken && after == seq![(key, value)] + before.remove(position(before, key))
    } else if limit == 0 {
        !taken && after == before
    } else {
        exists|kept: int|
            0 <= kept <= before.len() && kept < limit && after == fresh(key, value, taken)
                + #[trigger] before.take(kept)
    }
}

/// What a new entry adds in front of those that stay.
pub open spec fn fresh<K, V>(key: K, value: V, taken: bool) -> Seq<(K, V)> {
    if taken {
        seq![(key, value)]
    } else {
        Seq::empty()
    }
}

/// Whether a map in which `key` was put ended as long as its limit lets it. One that gets the
/// memory to grow always does.
pub open spec fn as_long_as_allowed<K, V>(
    before: Seq<(K, V)>,
    limit: nat,
    key: K,
    after: Seq<(K, V)>,
) -> bool {
    after.len() == if has_key(before, key) {
        before.len()
    } else if before.len() < limit {
        before.len() + 1
    } else {
        limit
    }
}

/// What a map that ends as long as its limit lets it holds after `value` was put under `key`:
/// the new entry first, then what was there, without the least recently used entry where
/// there is no room for it.
pub open spec fn stored<K, V>(before: Seq<(K, V)>, limit: nat, key: K, value: V) -> Seq<(K, V)> {
    if has_key(before, key) {
        seq![(key, value)] + before.remove(position(before, key))
    } else if limit == 0 {
        before
    } else if before.len() < limit {
        seq![(key, value)] + before
    } else {
        seq![(key, value)] + before.take(limit - 1)
    }
}

/// What every map keeps: no more entries than its limit, and no key twice.
pub open spec fn wf<K, V>(entries: Seq<(K, V)>, limit: nat) -> bool {
    &&& entries.len() <= limit
    &&& forall|i: int, j: int|
        0 <= i < j < entries.len() ==> #[trigger] entries[i].0 != #[trigger] entries[j].0
}

/// A key that is there has a first position.
pub proof fn lemma_position<K, V>(entries: Seq<(K, V)>, key: K)
    requires
        has_key(entries, key),
    ensures
        first_at(entries, key, position(entries, key)),
{
    let i = choose|i: int| 0 <= i < entries.len() && #[trigger] entries[i].0 == key;
    lemma_first_below(entries, key, i);
}

proof fn lemma_first_below<K, V>(entries: Seq<(K, V)>, key: K, i: int)
    requires
        0 <= i < entries.len(),
        entries[i].0 == key,
    ensures
        exists|k: int| first_at(entries, key, k),
    decreases i,
{
    if exists|j: int| 0 <= j < i && #[trigger] entries[j].0 == key {
        let j = choose|j: int| 0 <= j < i && #[trigger] entries[j].0 == key;
        lemma_first_below(entries, key, j);
    } else {
        assert(first_at(entries, key, i));
    }
}

/// The first position of a key is the only one.
pub proof fn lemma_position_unique<K, V>(entries: Seq<(K, V)>, key: K, i: int)
    requires
        first_at(entries, key, i),
    ensures
        has_key(entries, key),
        position(entries, key) == i,
{
    let p = position(entries, key);
    assert(first_at(entries, key, p));
    if p < i {
        assert(entries[p].0 != key);
    }
    if i < p {
        assert(entries[i].0 != key);
    }
}

/// Looking a key up changes nothing that a lookup finds, and doing it again changes nothing.
pub proof fn lemma_touched<K, V>(entries: Seq<(K, V)>, key: K)
    ensures
        lookup(touched(entries, key), key) == lookup(entries, key),
        touched(touched(entries, key), key) == touched(entries, key),
{
    if has_key(entries, key) {
        lemma_position(entries, key);
        let once = touched(entries, key);
        assert(first_at(once, key, 0));
        lemma_position_unique(once, key, 0);
        assert(touched(once, key) =~= once);
    }
}

/// Looking a key up keeps to the limit and doubles no key.
pub proof fn lemma_touched_wf<K, V>(entries: Seq<(K, V)>, limit: nat, key: K)
    requires
        wf(entries, limit),
    ensures
        wf(touched(entries, key), limit),
{
    if has_key(entries, key) {
        lemma_position(entries, key);
        lemma_moved_to_front(entries, position(entries, key), entries[position(entries, key)].1);
        assert(touched(entries, key) =~= seq![
            (entries[position(entries, key)].0, entries[position(entries, key)].1),
        ] + entries.remove(position(entries, key)));
    }
}

/// An entry that is brought to the front doubles no key.
pub proof fn lemma_moved_to_front<K, V>(entries: Seq<(K, V)>, p: int, value: V)
    requires
        0 <= p < entries.len(),
        wf(entries, entries.len()),
    ensures
        wf(seq![(entries[p].0, value)] + entries.remove(p), entries.len()),
{
    let moved = seq![(entries[p].0, value)] + entries.remove(p);
    assert forall|i: int, j: int| 0 <= i < j < moved.len() implies #[trigger] moved[i].0
        != #[trigger] moved[j].0 by {
        let from = |k: int|
            if k == 0 {
                p
            } else if k - 1 < p {
                k - 1
            } else {
                k
            };
        assert(moved[i].0 == entries[from(i)].0);
        assert(moved[j].0 == entries[from(j)].0);
        assert(from(i) != from(j));
    }
}

/// Putting an entry in keeps to the limit and doubles no key.
pub proof fn lemma_put_wf<K, V>(
    before: Seq<(K, V)>,
    limit: nat,
    key: K,
    value: V,
    taken: bool,
    after: Seq<(K, V)>,
)
    requires
        wf(before, limit),
        put(before, limit, key, value, taken, after),
    ensures
        wf(after, limit),
{
    if has_key(before, key) {
        lemma_position(before, key);
        lemma_moved_to_front(before, position(before, key), value);
    } else if limit > 0 {
        let kept = choose|kept: int|
            0 <= kept <= before.len() && kept < limit && after == fresh(key, value, taken)
                + #[trigger] before.take(kept);
        let shift: int = if taken {
            1
        } else {
            0
        };
        assert forall|i: int, j: int| 0 <= i < j < after.len() implies #[trigger] after[i].0
            != #[trigger] after[j].0 by {
            assert(after[j] == before[j - shift]);
            if i >= shift {
                assert(after[i] == before[i - shift]);
            }
        }
    }
}

/// What was put under a key is found there, as the most recently used, if the map took it;
/// else nothing is.
pub proof fn lemma_put<K, V>(
    before: Seq<(K, V)>,
    limit: nat,
    key: K,
    value: V,
    taken: bool,
    after: Seq<(K, V)>,
)
    requires
        put(before, limit, key, value, taken, after),
    ensures
        lookup(after, key) == (if taken {
            Some(value)
        } else {
            None
        }),
        touched(after, key) == after,
{
    if taken {
        assert(after[0] == (key, value));
        assert(first_at(after, key, 0));
        lemma_position_unique(after, key, 0);
        assert(touched(after, key) =~= after);
    } else {
        assert(!has_key(after, key)) by {
            if has_key(after, key) {
                let i = choose|i: int| 0 <= i < after.len() && #[trigger] after[i].0 == key;
                assert(after[i] == before[i]);
            }
        }
    }
}

/// A map that ends as long as its limit lets it took the entry, if it has room for any, and
/// gave up no more than the limit asks for.
pub proof fn lemma_stored<K, V>(
    before: Seq<(K, V)>,
    limit: nat,
    key: K,
    value: V,
    taken: bool,
    after: Seq<(K, V)>,
)
    requires
        put(before, limit, key, value, taken, after),
        as_long_as_allowed(before, limit, key, after),
    ensures
        taken == (limit > 0 || has_key(before, key)),
        after == stored(before, limit, key, value),
{
    if !has_key(before, key) && limit > 0 {
        let kept = choose|kept: int|
            0 <= kept <= before.len() && kept < limit && after == fresh(key, value, taken)
                + #[trigger] before.take(kept);
        assert(before.take(before.len() as int) =~= before);
    }
}

} // verus!
