//! The arithmetic of count tables: a table is a finite map from keys to
//! counts, and observing a run of keys raises each key's count by the number
//! of times it occurs in the run.

use vstd::prelude::*;

verus! {

/// The count a table holds for `k`: zero where the key is absent.
pub open spec fn count_of<K>(table: Map<K, nat>, k: K) -> nat {
    if table.contains_key(k) {
        table[k]
    } else {
        0
    }
}

/// Number of times `k` occurs in `keys`.
pub open spec fn times<K>(keys: Seq<K>, k: K) -> nat
    decreases keys.len(),
{
    if keys.len() == 0 {
        0
    } else {
        times(keys.drop_last(), k) + if keys.last() == k {
            1nat
        } else {
            0nat
        }
    }
}

/// The table after every key of `keys` has been counted once more: a key is
/// present where it was present before or occurs in `keys`, and its count has
/// risen by the number of its occurrences.
pub open spec fn tallied<K>(table: Map<K, nat>, keys: Seq<K>) -> Map<K, nat> {
    Map::new(
        |k: K| table.contains_key(k) || times(keys, k) > 0,
        |k: K| count_of(table, k) + times(keys, k),
    )
}

/// Whether every count is still a 64-bit number after every key of `keys`
/// has been counted once more.
pub open spec fn fits<K>(table: Map<K, nat>, keys: Seq<K>) -> bool {
    forall|k: K| #[trigger] count_of(table, k) + times(keys, k) <= u64::MAX
}

/// Whether no count of the table is above the count of `top`.
pub open spec fn dominated<K>(table: Map<K, nat>, top: K) -> bool {
    forall|k: K| #[trigger] count_of(table, k) <= count_of(table, top)
}

/// Sum of all counts of a finite table.
pub open spec fn total<K>(table: Map<K, nat>) -> nat
    decreases table.dom().len(),
    when table.dom().finite()
{
    if table.dom().is_empty() {
        0
    } else {
        let k = table.dom().choose();
        table[k] + total(table.remove(k))
    }
}

/// A key occurs in a run exactly where it is counted at least once.
pub proof fn lemma_times_positive<K>(keys: Seq<K>, k: K)
    ensures
        times(keys, k) > 0 <==> keys.contains(k),
    decreases keys.len(),
{
    if keys.len() > 0 {
        lemma_times_positive(keys.drop_last(), k);
        if keys.drop_last().contains(k) {
            let i = choose|i: int| 0 <= i < keys.drop_last().len() && keys.drop_last()[i] == k;
            assert(keys[i] == k);
        }
        if keys.contains(k) {
            let i = choose|i: int| 0 <= i < keys.len() && keys[i] == k;
            if i < keys.len() - 1 {
                assert(keys.drop_last()[i] == k);
            }
        }
    }
}

/// Occurrences add up over concatenation.
pub proof fn lemma_times_concat<K>(a: Seq<K>, b: Seq<K>, k: K)
    ensures
        times(a + b, k) == times(a, k) + times(b, k),
    decreases b.len(),
{
    if b.len() == 0 {
        assert(a + b =~= a);
    } else {
        assert((a + b).drop_last() =~= a + b.drop_last());
        lemma_times_concat(a, b.drop_last(), k);
    }
}

/// A part of a run holds a key no more often than the whole run.
pub proof fn lemma_times_prefix<K>(keys: Seq<K>, n: int, k: K)
    requires
        0 <= n <= keys.len(),
    ensures
        times(keys.take(n), k) <= times(keys, k),
{
    lemma_times_concat(keys.take(n), keys.skip(n), k);
    assert(keys.take(n) + keys.skip(n) =~= keys);
}

/// What the last key of a run adds to the occurrences of `k`.
pub proof fn lemma_times_last<K>(keys: Seq<K>, k: K)
    requires
        keys.len() > 0,
    ensures
        keys.drop_last().len() == keys.len() - 1,
        forall|i: int| 0 <= i < keys.len() - 1 ==> keys.drop_last()[i] == keys[i],
        times(keys, k) == times(keys.drop_last(), k) + if keys[keys.len() - 1] == k {
            1nat
        } else {
            0nat
        },
{
}

/// The occurrences in a run of two keys, spelled out.
pub proof fn lemma_times_two<K>(keys: Seq<K>, k: K)
    requires
        keys.len() == 2,
    ensures
        times(keys, k) == (if keys[0] == k { 1nat } else { 0nat }) + (if keys[1] == k { 1nat } else { 0nat }),
{
    let k1 = keys.drop_last();
    lemma_times_last(keys, k);
    lemma_times_last(k1, k);
}

/// The occurrences in a run of eight keys, spelled out.
pub proof fn lemma_times_eight<K>(keys: Seq<K>, k: K)
    requires
        keys.len() == 8,
    ensures
        times(keys, k) == (if keys[0] == k { 1nat } else { 0nat }) + (if keys[1] == k { 1nat } else { 0nat })
            + (if keys[2] == k { 1nat } else { 0nat }) + (if keys[3] == k { 1nat } else { 0nat })
            + (if keys[4] == k { 1nat } else { 0nat }) + (if keys[5] == k { 1nat } else { 0nat })
            + (if keys[6] == k { 1nat } else { 0nat }) + (if keys[7] == k { 1nat } else { 0nat }),
{
    let k7 = keys.drop_last();
    let k6 = k7.drop_last();
    let k5 = k6.drop_last();
    let k4 = k5.drop_last();
    let k3 = k4.drop_last();
    let k2 = k3.drop_last();
    let k1 = k2.drop_last();
    lemma_times_last(keys, k);
    lemma_times_last(k7, k);
    lemma_times_last(k6, k);
    lemma_times_last(k5, k);
    lemma_times_last(k4, k);
    lemma_times_last(k3, k);
    lemma_times_last(k2, k);
    lemma_times_last(k1, k);
}

/// Counting nothing changes nothing.
pub proof fn lemma_tallied_nothing<K>(table: Map<K, nat>)
    ensures
        tallied(table, Seq::<K>::empty()) == table,
{
    assert(tallied(table, Seq::<K>::empty()) =~= table);
}

/// Counting one key inserts it with its count raised by one.
pub proof fn lemma_tallied_one<K>(table: Map<K, nat>, k: K)
    ensures
        tallied(table, seq![k]) == table.insert(k, count_of(table, k) + 1),
{
    let one = seq![k];
    assert(one.drop_last() =~= Seq::<K>::empty());
    assert forall|j: K| times(one, j) == if j == k { 1nat } else { 0nat } by {
        assert(times(one.drop_last(), j) == 0);
    }
    assert(tallied(table, one) =~= table.insert(k, count_of(table, k) + 1));
}

/// Counting two runs one after the other is counting their concatenation.
pub proof fn lemma_tallied_concat<K>(table: Map<K, nat>, a: Seq<K>, b: Seq<K>)
    ensures
        tallied(tallied(table, a), b) == tallied(table, a + b),
{
    assert forall|k: K|
        count_of(tallied(table, a), k) + times(b, k) == count_of(table, k) + times(a + b, k) by {
        lemma_times_concat(a, b, k);
    }
    assert forall|k: K| times(a + b, k) == times(a, k) + times(b, k) by {
        lemma_times_concat(a, b, k);
    }
    assert(tallied(tallied(table, a), b) =~= tallied(table, a + b));
}

/// Counting keeps a finite table finite.
pub proof fn lemma_tallied_finite<K>(table: Map<K, nat>, keys: Seq<K>)
    requires
        table.dom().finite(),
    ensures
        tallied(table, keys).dom().finite(),
    decreases keys.len(),
{
    if keys.len() == 0 {
        assert(keys =~= Seq::<K>::empty());
        lemma_tallied_nothing(table);
    } else {
        let before = tallied(table, keys.drop_last());
        let after = before.insert(keys.last(), count_of(before, keys.last()) + 1);
        assert(keys.drop_last() + seq![keys.last()] =~= keys);
        lemma_tallied_finite(table, keys.drop_last());
        lemma_tallied_concat(table, keys.drop_last(), seq![keys.last()]);
        lemma_tallied_one(before, keys.last());
        assert(tallied(table, keys) == after);
        assert(after.dom() =~= before.dom().insert(keys.last()));
    }
}

/// The sum of a table is the count of any one of its keys plus the sum of
/// the rest.
pub proof fn lemma_total_remove<K>(table: Map<K, nat>, k: K)
    requires
        table.dom().finite(),
        table.contains_key(k),
    ensures
        total(table) == table[k] + total(table.remove(k)),
    decreases table.dom().len(),
{
    let c = table.dom().choose();
    if c != k {
        lemma_total_remove(table.remove(c), k);
        lemma_total_remove(table.remove(k), c);
        assert(table.remove(c).remove(k) =~= table.remove(k).remove(c));
    }
}

/// Setting one count changes the sum by the difference.
pub proof fn lemma_total_insert<K>(table: Map<K, nat>, k: K, count: nat)
    requires
        table.dom().finite(),
    ensures
        total(table.insert(k, count)) + count_of(table, k) == total(table) + count,
{
    let after = table.insert(k, count);
    lemma_total_remove(after, k);
    assert(after.remove(k) =~= table.remove(k));
    if table.contains_key(k) {
        lemma_total_remove(table, k);
    } else {
        assert(table.remove(k) =~= table);
    }
}

/// Whether no key stands twice in a list of keys with their counts.
pub open spec fn distinct_keys<K>(entries: Seq<(K, nat)>) -> bool {
    forall|i: int, j: int|
        0 <= i < j < entries.len() ==> (#[trigger] entries[i]).0 != (#[trigger] entries[j]).0
}

/// Whether `k` is one of the listed keys.
pub open spec fn has_key<K>(entries: Seq<(K, nat)>, k: K) -> bool {
    exists|i: int| 0 <= i < entries.len() && (#[trigger] entries[i]).0 == k
}

/// The table that a list of keys with their counts stands for.
pub open spec fn table_of<K>(entries: Seq<(K, nat)>) -> Map<K, nat> {
    Map::new(
        |k: K| has_key(entries, k),
        |k: K| entries[choose|i: int| 0 <= i < entries.len() && (#[trigger] entries[i]).0 == k].1,
    )
}

/// Each listed key maps to the count listed with it.
pub proof fn lemma_table_of_entry<K>(entries: Seq<(K, nat)>, i: int)
    requires
        distinct_keys(entries),
        0 <= i < entries.len(),
    ensures
        table_of(entries).contains_key(entries[i].0),
        table_of(entries)[entries[i].0] == entries[i].1,
{
    let k = entries[i].0;
    let j = choose|j: int| 0 <= j < entries.len() && (#[trigger] entries[j]).0 == k;
    assert(i == j);
}

/// Listing a new key adds it to the table.
pub proof fn lemma_table_of_push<K>(entries: Seq<(K, nat)>, k: K, count: nat)
    requires
        distinct_keys(entries),
        !has_key(entries, k),
    ensures
        distinct_keys(entries.push((k, count))),
        table_of(entries.push((k, count))) == table_of(entries).insert(k, count),
{
    let longer = entries.push((k, count));
    assert forall|i: int, j: int| 0 <= i < j < longer.len() implies (#[trigger] longer[i]).0 != (
    #[trigger] longer[j]).0 by {
        assert(longer[i] == entries[i]);
        if j < entries.len() {
            assert(longer[j] == entries[j]);
        }
    }
    assert forall|x: K| has_key(longer, x) <==> (has_key(entries, x) || x == k) by {
        if has_key(entries, x) {
            let i = choose|i: int| 0 <= i < entries.len() && (#[trigger] entries[i]).0 == x;
            assert(longer[i].0 == x);
        }
        if x == k {
            assert(longer[entries.len() as int].0 == x);
        }
        if has_key(longer, x) {
            let i = choose|i: int| 0 <= i < longer.len() && (#[trigger] longer[i]).0 == x;
            if i < entries.len() {
                assert(entries[i].0 == x);
            }
        }
    }
    assert forall|x: K| has_key(longer, x) implies table_of(longer)[x] == table_of(
        entries,
    ).insert(k, count)[x] by {
        let i = choose|i: int| 0 <= i < longer.len() && (#[trigger] longer[i]).0 == x;
        lemma_table_of_entry(longer, i);
        if i < entries.len() {
            assert(longer[i] == entries[i]);
            lemma_table_of_entry(entries, i);
        }
    }
    assert(table_of(longer) =~= table_of(entries).insert(k, count));
}

/// Changing the count listed with a key changes it in the table.
pub proof fn lemma_table_of_update<K>(entries: Seq<(K, nat)>, at: int, count: nat)
    requires
        distinct_keys(entries),
        0 <= at < entries.len(),
    ensures
        distinct_keys(entries.update(at, (entries[at].0, count))),
        table_of(entries.update(at, (entries[at].0, count))) == table_of(entries).insert(
            entries[at].0,
            count,
        ),
{
    let k = entries[at].0;
    let changed = entries.update(at, (k, count));
    assert forall|i: int| 0 <= i < entries.len() implies (#[trigger] changed[i]).0 == entries[i].0 by {}
    assert forall|i: int, j: int| 0 <= i < j < changed.len() implies (#[trigger] changed[i]).0 != (
    #[trigger] changed[j]).0 by {
        assert(changed[i].0 == entries[i].0);
        assert(changed[j].0 == entries[j].0);
    }
    assert forall|x: K| has_key(changed, x) <==> has_key(entries, x) by {
        if has_key(entries, x) {
            let i = choose|i: int| 0 <= i < entries.len() && (#[trigger] entries[i]).0 == x;
            assert(changed[i].0 == x);
        }
        if has_key(changed, x) {
            let i = choose|i: int| 0 <= i < changed.len() && (#[trigger] changed[i]).0 == x;
            assert(entries[i].0 == x);
        }
    }
    assert(has_key(entries, k)) by {
        assert(entries[at].0 == k);
    }
    assert forall|x: K| has_key(changed, x) implies table_of(changed)[x] == table_of(
        entries,
    ).insert(k, count)[x] by {
        let i = choose|i: int| 0 <= i < changed.len() && (#[trigger] changed[i]).0 == x;
        lemma_table_of_entry(changed, i);
        lemma_table_of_entry(entries, i);
    }
    assert(table_of(changed) =~= table_of(entries).insert(k, count));
}

/// A listed table is finite, and has as many keys as the list has entries.
pub proof fn lemma_table_of_finite<K>(entries: Seq<(K, nat)>)
    requires
        distinct_keys(entries),
    ensures
        table_of(entries).dom().finite(),
        table_of(entries).dom().len() == entries.len(),
    decreases entries.len(),
{
    if entries.len() == 0 {
        assert(table_of(entries).dom() =~= Set::<K>::empty());
    } else {
        let shorter = entries.drop_last();
        let last = entries.last();
        assert forall|i: int, j: int| 0 <= i < j < shorter.len() implies (#[trigger] shorter[i]).0
            != (#[trigger] shorter[j]).0 by {
            assert(shorter[i] == entries[i]);
            assert(shorter[j] == entries[j]);
        }
        if has_key(shorter, last.0) {
            let i = choose|i: int| 0 <= i < shorter.len() && (#[trigger] shorter[i]).0 == last.0;
            assert(entries[i].0 == entries[entries.len() - 1].0);
        }
        lemma_table_of_finite(shorter);
        lemma_table_of_push(shorter, last.0, last.1);
        assert(shorter.push((last.0, last.1)) =~= entries);
        assert(table_of(entries).dom() =~= table_of(shorter).dom().insert(last.0));
        assert(!table_of(shorter).dom().contains(last.0));
    }
}

} // verus!
