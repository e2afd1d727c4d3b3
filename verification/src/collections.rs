//! Lists of key and value pairs, and a step lemma for filtering.

use vstd::prelude::*;

verus! {

/// The last index at which `entries` holds `key`, or -1 where none does.
pub open spec fn key_index<K, V>(entries: Seq<(K, V)>, key: K) -> int
    decreases entries.len(),
{
    if entries.len() == 0 {
        -1
    } else if entries.last().0 == key {
        entries.len() - 1
    } else {
        key_index(entries.drop_last(), key)
    }
}

/// The value that `entries` holds for `key`.
pub open spec fn lookup<K, V>(entries: Seq<(K, V)>, key: K) -> Option<V> {
    let i = key_index(entries, key);
    if i < 0 {
        None
    } else {
        Some(entries[i].1)
    }
}

/// `entries` with `value` for `key`: in the place of the pair that held
/// `key`, or at the end where none did.
pub open spec fn upsert<K, V>(entries: Seq<(K, V)>, key: K, value: V) -> Seq<(K, V)> {
    let i = key_index(entries, key);
    if i < 0 {
        entries.push((key, value))
    } else {
        entries.update(i, (key, value))
    }
}

/// No key occurs twice.
pub open spec fn distinct_keys<K, V>(entries: Seq<(K, V)>) -> bool {
    forall|i: int, j: int|
        0 <= i < j < entries.len() ==> (#[trigger] entries[i]).0 != (#[trigger] entries[j]).0
}

/// No item occurs twice.
pub open spec fn distinct<A>(items: Seq<A>) -> bool {
    forall|i: int, j: int| 0 <= i < j < items.len() ==> #[trigger] items[i] != #[trigger] items[j]
}

/// The first component of a pair.
pub open spec fn first_of<K, V>() -> spec_fn((K, V)) -> K {
    |entry: (K, V)| entry.0
}

/// The keys of `entries`, in order.
pub open spec fn keys<K, V>(entries: Seq<(K, V)>) -> Seq<K> {
    entries.map_values(first_of::<K, V>())
}

pub proof fn lemma_key_index<K, V>(entries: Seq<(K, V)>, key: K)
    ensures
        -1 <= key_index(entries, key) < entries.len(),
        key_index(entries, key) >= 0 ==> entries[key_index(entries, key)].0 == key,
        forall|j: int| key_index(entries, key) < j < entries.len() ==> (#[trigger] entries[j]).0 != key,
    decreases entries.len(),
{
    if entries.len() > 0 && entries.last().0 != key {
        lemma_key_index(entries.drop_last(), key);
        assert forall|j: int| key_index(entries, key) < j < entries.len() implies (#[trigger] entries[j]).0
            != key by {
            if j < entries.len() - 1 {
                assert(entries.drop_last()[j] == entries[j]);
            }
        }
    }
}

/// Where no later place holds `key`, the place that holds it is the one found.
pub proof fn lemma_key_index_is<K, V>(entries: Seq<(K, V)>, key: K, i: int)
    requires
        0 <= i < entries.len(),
        entries[i].0 == key,
        forall|j: int| i < j < entries.len() ==> (#[trigger] entries[j]).0 != key,
    ensures
        key_index(entries, key) == i,
    decreases entries.len(),
{
    if i < entries.len() - 1 {
        assert(entries[entries.len() - 1].0 != key);
        assert forall|j: int| i < j < entries.drop_last().len() implies (#[trigger] entries.drop_last()[j]).0
            != key by {
            assert(entries.drop_last()[j] == entries[j]);
        }
        lemma_key_index_is(entries.drop_last(), key, i);
    }
}

pub proof fn lemma_key_index_absent<K, V>(entries: Seq<(K, V)>, key: K)
    requires
        forall|j: int| 0 <= j < entries.len() ==> (#[trigger] entries[j]).0 != key,
    ensures
        key_index(entries, key) == -1,
    decreases entries.len(),
{
    if entries.len() > 0 {
        assert(entries[entries.len() - 1].0 != key);
        assert forall|j: int| 0 <= j < entries.drop_last().len() implies (#[trigger] entries.drop_last()[j]).0
            != key by {
            assert(entries.drop_last()[j] == entries[j]);
        }
        lemma_key_index_absent(entries.drop_last(), key);
    }
}

/// `upsert` behaves as the update of a map.
pub proof fn lemma_upsert<K, V>(entries: Seq<(K, V)>, key: K, value: V)
    requires
        distinct_keys(entries),
    ensures
        distinct_keys(upsert(entries, key, value)),
        lookup(upsert(entries, key, value), key) == Some(value),
        forall|other: K| other != key ==> lookup(upsert(entries, key, value), other) == lookup(entries, other),
{
    let i = key_index(entries, key);
    let after = upsert(entries, key, value);
    lemma_key_index(entries, key);
    if i < 0 {
        lemma_key_index_is(after, key, entries.len() as int);
        assert forall|other: K| other != key implies lookup(after, other) == lookup(
            entries,
            other,
        ) by {
            assert(after.drop_last() =~= entries);
            assert(after.last().0 == key);
            assert(key_index(after, other) == key_index(entries, other));
            lemma_key_index(entries, other);
        }
    } else {
        assert forall|j: int| i < j < after.len() implies (#[trigger] after[j]).0 != key by {
            assert(entries[j].0 != key);
        }
        lemma_key_index_is(after, key, i);
        assert forall|other: K| other != key implies lookup(after, other) == lookup(
            entries,
            other,
        ) by {
            lemma_key_index(entries, other);
            let k = key_index(entries, other);
            if k >= 0 {
                assert forall|j: int| k < j < after.len() implies (#[trigger] after[j]).0
                    != other by {
                    assert(entries[j].0 != other);
                }
                lemma_key_index_is(after, other, k);
            } else {
                assert forall|j: int| 0 <= j < after.len() implies (#[trigger] after[j]).0
                    != other by {
                    assert(entries[j].0 != other);
                }
                lemma_key_index_absent(after, other);
            }
        }
    }
}

/// Filtering nothing.
pub proof fn lemma_filter_none<A>(keep: spec_fn(A) -> bool)
    ensures
        Seq::<A>::empty().filter(keep) == Seq::<A>::empty(),
{
    reveal(Seq::filter);
}

/// Filtering a single item.
pub proof fn lemma_filter_single<A>(item: A, keep: spec_fn(A) -> bool)
    ensures
        seq![item].filter(keep) == if keep(item) {
            seq![item]
        } else {
            Seq::empty()
        },
{
    reveal_with_fuel(Seq::filter, 2);
    assert(seq![item].drop_last() =~= Seq::empty());
    assert(seq![item].last() == item);
    assert(Seq::<A>::empty().push(item) =~= seq![item]);
}

/// Filtering one item more.
pub proof fn lemma_filter_step<A>(items: Seq<A>, keep: spec_fn(A) -> bool, i: int)
    requires
        0 <= i < items.len(),
    ensures
        items.take(i + 1).filter(keep) == if keep(items[i]) {
            items.take(i).filter(keep).push(items[i])
        } else {
            items.take(i).filter(keep)
        },
{
    assert(items.take(i + 1) =~= items.take(i).push(items[i]));
    items.take(i).lemma_filter_push(items[i], keep);
}

/// Of what a filter keeps, no more items pass a test than of the whole.
pub proof fn lemma_filter_filter_len<A>(items: Seq<A>, keep: spec_fn(A) -> bool, test: spec_fn(A) -> bool)
    ensures
        items.filter(keep).filter(test).len() <= items.filter(test).len(),
    decreases items.len(),
{
    reveal(Seq::filter);
    if items.len() > 0 {
        lemma_filter_filter_len(items.drop_last(), keep, test);
        if keep(items.last()) {
            items.drop_last().filter(keep).lemma_filter_push(items.last(), test);
        }
    }
}

/// A narrower test lets no more items pass.
pub proof fn lemma_filter_narrower<A>(items: Seq<A>, narrow: spec_fn(A) -> bool, wide: spec_fn(A) -> bool)
    requires
        forall|item: A| #[trigger] narrow(item) ==> wide(item),
    ensures
        items.filter(narrow).len() <= items.filter(wide).len(),
    decreases items.len(),
{
    reveal(Seq::filter);
    if items.len() > 0 {
        lemma_filter_narrower(items.drop_last(), narrow, wide);
    }
}

/// Filtering keeps the order: what holds of every two items in their
/// order still holds of every two that are kept.
pub proof fn lemma_filter_pairwise<A>(
    items: Seq<A>,
    keep: spec_fn(A) -> bool,
    related: spec_fn(A, A) -> bool,
)
    requires
        forall|i: int, j: int|
            0 <= i < j < items.len() ==> related(#[trigger] items[i], #[trigger] items[j]),
    ensures
        forall|i: int, j: int|
            0 <= i < j < items.filter(keep).len() ==> related(
                #[trigger] items.filter(keep)[i],
                #[trigger] items.filter(keep)[j],
            ),
    decreases items.len(),
{
    reveal(Seq::filter);
    if items.len() > 0 {
        let init = items.drop_last();
        let before = init.filter(keep);
        let kept = items.filter(keep);
        assert forall|i: int, j: int| 0 <= i < j < init.len() implies related(
            #[trigger] init[i],
            #[trigger] init[j],
        ) by {
            assert(related(items[i], items[j]));
        }
        lemma_filter_pairwise(init, keep, related);
        assert forall|i: int, j: int| 0 <= i < j < kept.len() implies related(
            #[trigger] kept[i],
            #[trigger] kept[j],
        ) by {
            if j < before.len() {
                assert(related(before[i], before[j]));
            } else {
                assert(before[i] == kept[i]);
                assert(before.contains(kept[i]));
                init.lemma_filter_contains_rev(keep, kept[i]);
                let m = choose|m: int| 0 <= m < init.len() && init[m] == kept[i];
                assert(related(items[m], items[items.len() - 1]));
            }
        }
    }
}

} // verus!
