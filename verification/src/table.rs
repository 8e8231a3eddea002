//! A table kept as a sequence of items with distinct keys, seen as a map.
//!
//! The session keeps its streams and the resolver its names in a vector,
//! and both state their contracts over a map. The step from the one to the
//! other is the same for both and is made here once: what the map holds,
//! and how it changes when an item is added, replaced or taken out.

use vstd::prelude::*;

verus! {

/// Some item of `items` has the key `k`.
pub open spec fn has_key<T, K>(items: Seq<T>, key: spec_fn(T) -> K, k: K) -> bool {
    exists|i: int| 0 <= i < items.len() && key(#[trigger] items[i]) == k
}

/// The place of an item with the key `k`.
pub open spec fn index_of<T, K>(items: Seq<T>, key: spec_fn(T) -> K, k: K) -> int {
    choose|i: int| 0 <= i < items.len() && key(#[trigger] items[i]) == k
}

/// No two items have the same key.
pub open spec fn unique<T, K>(items: Seq<T>, key: spec_fn(T) -> K) -> bool {
    forall|i: int, j: int|
        0 <= i < j < items.len() ==> key(#[trigger] items[i]) != key(#[trigger] items[j])
}

/// The map from the key of each item to its value.
pub open spec fn table<T, K, V>(items: Seq<T>, key: spec_fn(T) -> K, val: spec_fn(T) -> V) -> Map<
    K,
    V,
> {
    Map::new(|k: K| has_key(items, key, k), |k: K| val(items[index_of(items, key, k)]))
}

/// The item at place `i` is found under its key.
pub proof fn lemma_at<T, K, V>(items: Seq<T>, key: spec_fn(T) -> K, val: spec_fn(T) -> V, i: int)
    requires
        unique(items, key),
        0 <= i < items.len(),
    ensures
        has_key(items, key, key(items[i])),
        index_of(items, key, key(items[i])) == i,
        table(items, key, val).contains_key(key(items[i])),
        table(items, key, val)[key(items[i])] == val(items[i]),
{
    let k = key(items[i]);
    assert(has_key(items, key, k));
    let j = index_of(items, key, k);
    assert(0 <= j < items.len() && key(items[j]) == k);
    if j < i {
        assert(key(items[j]) != key(items[i]));
    }
    if i < j {
        assert(key(items[i]) != key(items[j]));
    }
}

/// What is found under a key is the value of an item with that key.
pub proof fn lemma_has<T, K, V>(items: Seq<T>, key: spec_fn(T) -> K, val: spec_fn(T) -> V, k: K)
    requires
        table(items, key, val).contains_key(k),
    ensures
        0 <= index_of(items, key, k) < items.len(),
        key(items[index_of(items, key, k)]) == k,
        table(items, key, val)[k] == val(items[index_of(items, key, k)]),
{
    assert(has_key(items, key, k));
}

/// Adding an item with a new key inserts it.
pub proof fn lemma_push<T, K, V>(items: Seq<T>, key: spec_fn(T) -> K, val: spec_fn(T) -> V, x: T)
    requires
        unique(items, key),
        !has_key(items, key, key(x)),
    ensures
        unique(items.push(x), key),
        table(items.push(x), key, val) == table(items, key, val).insert(key(x), val(x)),
{
    let after = items.push(x);
    assert forall|i: int, j: int| 0 <= i < j < after.len() implies key(#[trigger] after[i]) != key(
        #[trigger] after[j],
    ) by {
        if j == items.len() {
            assert(after[i] == items[i]);
            if key(items[i]) == key(x) {
                assert(has_key(items, key, key(x)));
            }
        } else {
            assert(after[i] == items[i]);
            assert(after[j] == items[j]);
        }
    }
    let m = table(items, key, val).insert(key(x), val(x));
    assert forall|k: K| table(after, key, val).contains_key(k) <==> m.contains_key(k) by {
        if has_key(after, key, k) {
            let i = index_of(after, key, k);
            if i < items.len() {
                assert(items[i] == after[i]);
                assert(has_key(items, key, k));
            }
        }
        if m.contains_key(k) {
            if k == key(x) {
                assert(key(after[items.len() as int]) == k);
            } else {
                let i = index_of(items, key, k);
                assert(has_key(items, key, k));
                assert(key(after[i]) == k);
            }
        }
    }
    assert forall|k: K| table(after, key, val).contains_key(k) implies table(after, key, val)[k]
        == m[k] by {
        let i = index_of(after, key, k);
        lemma_at(after, key, val, i);
        if i < items.len() {
            assert(after[i] == items[i]);
            lemma_at(items, key, val, i);
        }
    }
    assert(table(after, key, val) =~= m);
}

/// Replacing an item by one with the same key replaces its value.
pub proof fn lemma_update<T, K, V>(
    items: Seq<T>,
    key: spec_fn(T) -> K,
    val: spec_fn(T) -> V,
    i: int,
    x: T,
)
    requires
        unique(items, key),
        0 <= i < items.len(),
        key(x) == key(items[i]),
    ensures
        unique(items.update(i, x), key),
        table(items.update(i, x), key, val) == table(items, key, val).insert(key(x), val(x)),
{
    let after = items.update(i, x);
    assert forall|a: int, b: int| 0 <= a < b < after.len() implies key(#[trigger] after[a]) != key(
        #[trigger] after[b],
    ) by {
        assert(key(after[a]) == key(items[a]));
        assert(key(after[b]) == key(items[b]));
    }
    let m = table(items, key, val).insert(key(x), val(x));
    assert forall|k: K| table(after, key, val).contains_key(k) <==> m.contains_key(k) by {
        if has_key(after, key, k) {
            let j = index_of(after, key, k);
            assert(key(items[j]) == k);
            assert(has_key(items, key, k));
        }
        if m.contains_key(k) {
            if k == key(x) {
                assert(key(after[i]) == k);
            } else {
                assert(has_key(items, key, k));
                let j = index_of(items, key, k);
                assert(key(after[j]) == k);
            }
        }
    }
    assert forall|k: K| table(after, key, val).contains_key(k) implies table(after, key, val)[k]
        == m[k] by {
        let j = index_of(after, key, k);
        lemma_at(after, key, val, j);
        if j != i {
            assert(after[j] == items[j]);
            lemma_at(items, key, val, j);
        }
    }
    assert(table(after, key, val) =~= m);
}

/// Taking an item out removes its key.
pub proof fn lemma_remove<T, K, V>(
    items: Seq<T>,
    key: spec_fn(T) -> K,
    val: spec_fn(T) -> V,
    i: int,
)
    requires
        unique(items, key),
        0 <= i < items.len(),
    ensures
        unique(items.remove(i), key),
        table(items.remove(i), key, val) == table(items, key, val).remove(key(items[i])),
{
    let after = items.remove(i);
    assert forall|a: int, b: int| 0 <= a < b < after.len() implies key(#[trigger] after[a]) != key(
        #[trigger] after[b],
    ) by {
        let a0 = if a < i { a } else { a + 1 };
        let b0 = if b < i { b } else { b + 1 };
        assert(after[a] == items[a0]);
        assert(after[b] == items[b0]);
    }
    let gone = key(items[i]);
    let m = table(items, key, val).remove(gone);
    assert forall|k: K| table(after, key, val).contains_key(k) <==> m.contains_key(k) by {
        if has_key(after, key, k) {
            let j = index_of(after, key, k);
            let j0 = if j < i { j } else { j + 1 };
            assert(after[j] == items[j0]);
            assert(has_key(items, key, k));
            if k == gone {
                if j0 < i {
                    assert(key(items[j0]) != key(items[i]));
                } else {
                    assert(key(items[i]) != key(items[j0]));
                }
            }
        }
        if m.contains_key(k) {
            assert(has_key(items, key, k));
            let j0 = index_of(items, key, k);
            let j = if j0 < i { j0 } else { j0 - 1 };
            assert(after[j] == items[j0]);
        }
    }
    assert forall|k: K| table(after, key, val).contains_key(k) implies table(after, key, val)[k]
        == m[k] by {
        let j = index_of(after, key, k);
        lemma_at(after, key, val, j);
        let j0 = if j < i { j } else { j + 1 };
        assert(after[j] == items[j0]);
        lemma_at(items, key, val, j0);
    }
    assert(table(after, key, val) =~= m);
}

/// The map has as many keys as there are items.
pub proof fn lemma_len<T, K, V>(items: Seq<T>, key: spec_fn(T) -> K, val: spec_fn(T) -> V)
    requires
        unique(items, key),
    ensures
        table(items, key, val).dom().finite(),
        table(items, key, val).dom().len() == items.len(),
    decreases items.len(),
{
    if items.len() == 0 {
        assert(table(items, key, val).dom() =~= Set::<K>::empty());
    } else {
        let front = items.drop_last();
        let last = items.last();
        assert(items =~= front.push(last));
        assert forall|i: int, j: int| 0 <= i < j < front.len() implies key(#[trigger] front[i])
            != key(#[trigger] front[j]) by {
            assert(front[i] == items[i]);
            assert(front[j] == items[j]);
        }
        if has_key(front, key, key(last)) {
            let j = index_of(front, key, key(last));
            assert(front[j] == items[j]);
            assert(key(items[j]) != key(items[items.len() - 1]));
        }
        lemma_len(front, key, val);
        lemma_push(front, key, val, last);
        assert(table(items, key, val).dom() =~= table(front, key, val).dom().insert(key(last)));
        assert(!table(front, key, val).dom().contains(key(last)));
    }
}

} // verus!
