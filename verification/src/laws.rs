//! What holds of every table, whatever it holds.

use crate::bucket::{
    bucket_put, bucket_remove, lemma_position_is, lemma_scan, position, EntryView,
};
use crate::gc::{
    alive, keeps, lemma_sifted_keeps_order, reached, sifted, swept, test_cells,
};
use crate::heap::{HeapView, LispHashTableRef};
use crate::hashtable::{LispHashTable, MarkState, TableView, Weakness};
use crate::object::Datum;
use crate::store::{
    bucket_at, count, has_key, lemma_builtin_order_ignores_runtime, lemma_count_empty,
    lemma_count_insert, orderly, put, remove, silent, with_bucket, Buckets,
};
use crate::strategy::{lawful, lemma_builtin_is_lawful, HostModel, Test};
use vstd::prelude::*;

verus! {

/// A key that was just given a value has that value: under a built-in test
/// always, under a user-defined test if the test takes the key for the same
/// as itself, as every lawful test does.
pub proof fn lemma_put_then_get(table: TableView, m: HostModel, k: Datum, v: Datum)
    requires
        table.func.is_builtin() || table.func.same(m, k, k),
    ensures
        table.put(m, k, v).get(m, k) == v,
        has_key(table.put(m, k, v).entries, table.func, m, k),
{
    let t = table.func;
    if t.is_builtin() {
        lemma_builtin_is_lawful(t, m);
    }
    let code = t.hash_of(m, k);
    let b = bucket_at(table.entries, code);
    let after = bucket_put(b, t, m, k, v);
    let p = position(b, t, m, k);
    lemma_scan(b, t, m, k, 0);
    assert forall|j: int| 0 <= j < p implies !t.same(m, k, (#[trigger] after[j]).key.object) by {
        assert(after[j] == b[j]);
    }
    lemma_position_is(after, t, m, k, p);
}

/// Under a lawful test, and so under every built-in one, two keys that the
/// test takes for the same share one entry: a second put with the other
/// key adds nothing and gives both keys the new value. So two strings of
/// the same text, in different cells, are one key under the structural
/// test.
pub proof fn lemma_same_keys_share_an_entry(
    table: TableView,
    m: HostModel,
    a1: Datum,
    a2: Datum,
    v1: Datum,
    v2: Datum,
)
    requires
        table.entries.dom().finite(),
        table.func.is_builtin() || lawful(table.func, m),
        table.func.same(m, a1, a2),
    ensures
        table.put(m, a1, v1).put(m, a2, v2).count() == table.put(m, a1, v1).count(),
        table.put(m, a1, v1).put(m, a2, v2).get(m, a1) == v2,
        table.put(m, a1, v1).put(m, a2, v2).get(m, a2) == v2,
{
    let t = table.func;
    if t.is_builtin() {
        lemma_builtin_is_lawful(t, m);
    }
    assert(t.same(m, a1, a1) && t.same(m, a2, a1));
    let code = t.hash_of(m, a1);
    let b = bucket_at(table.entries, code);
    let once = table.put(m, a1, v1);
    let after_one = bucket_put(b, t, m, a1, v1);
    lemma_scan(b, t, m, a1, 0);
    lemma_put_then_get(table, m, a1, v1);
    assert(bucket_at(once.entries, code) == after_one);
    let place = position(after_one, t, m, a1);
    lemma_scan(after_one, t, m, a1, 0);
    // The two keys find the same place in the bucket.
    assert forall|j: int| 0 <= j < after_one.len() implies t.same(
        m,
        a1,
        (#[trigger] after_one[j]).key.object,
    ) == t.same(m, a2, after_one[j].key.object) by {
        let other = after_one[j].key.object;
        if t.same(m, a1, other) {
            assert(t.same(m, a2, a1) && t.same(m, a1, other));
        }
        if t.same(m, a2, other) {
            assert(t.same(m, a1, a2) && t.same(m, a2, other));
        }
    }
    lemma_position_is(after_one, t, m, a2, place);
    let twice = once.put(m, a2, v2);
    let after_two = bucket_put(after_one, t, m, a2, v2);
    assert(bucket_at(twice.entries, code) == after_two);
    assert forall|j: int| 0 <= j < place implies !t.same(
        m,
        a1,
        (#[trigger] after_two[j]).key.object,
    ) by {
        assert(after_two[j] == after_one[j]);
    }
    lemma_position_is(after_two, t, m, a1, place);
    lemma_put_then_get(once, m, a2, v2);
    lemma_count_insert(once.entries, code, after_two);
    lemma_count_insert(once.entries, code, after_one);
    assert(once.entries.insert(code, after_one) =~= once.entries);
}

/// A put adds one entry if the table had none for the key, and none if it
/// had one.
pub proof fn lemma_count_after_put(table: TableView, m: HostModel, k: Datum, v: Datum)
    requires
        table.entries.dom().finite(),
    ensures
        table.put(m, k, v).count() == table.count() + (if has_key(
            table.entries,
            table.func,
            m,
            k,
        ) {
            0int
        } else {
            1int
        }),
{
    let t = table.func;
    let code = t.hash_of(m, k);
    let b = bucket_at(table.entries, code);
    lemma_scan(b, t, m, k, 0);
    lemma_count_insert(table.entries, code, bucket_put(b, t, m, k, v));
}

/// A removal takes one entry away if the table had one for the key, and
/// none if it had none.
pub proof fn lemma_count_after_remove(table: TableView, m: HostModel, k: Datum)
    requires
        table.entries.dom().finite(),
    ensures
        table.remove(m, k).count() == table.count() - (if has_key(
            table.entries,
            table.func,
            m,
            k,
        ) {
            1int
        } else {
            0int
        }),
{
    let t = table.func;
    let code = t.hash_of(m, k);
    if table.entries.contains_key(code) {
        let b = table.entries[code];
        let after = bucket_remove(b, t, m, k);
        lemma_scan(b, t, m, k, 0);
        lemma_count_insert(table.entries, code, after);
        if after.len() == 0 {
            assert(table.entries.remove(code).remove(code) =~= table.entries.remove(code));
        }
    } else {
        lemma_scan(bucket_at(table.entries, code), t, m, k, 0);
    }
}

/// A cleared table has no entries, however many it had.
pub proof fn lemma_count_after_clear(table: TableView)
    ensures
        table.cleared().count() == 0,
{
    lemma_count_empty(table.cleared().entries);
}

/// Under a lawful test, a put or a removal of one key leaves every key that
/// the test tells apart from it as it was: present or absent, and with the
/// value it had.
pub proof fn lemma_other_keys_untouched(
    table: TableView,
    m: HostModel,
    k: Datum,
    v: Datum,
    other: Datum,
)
    requires
        table.func.is_builtin() || lawful(table.func, m),
        !table.func.same(m, other, k),
    ensures
        table.put(m, k, v).get(m, other) == table.get(m, other),
        has_key(table.put(m, k, v).entries, table.func, m, other) == has_key(
            table.entries,
            table.func,
            m,
            other,
        ),
        table.remove(m, k).get(m, other) == table.get(m, other),
        has_key(table.remove(m, k).entries, table.func, m, other) == has_key(
            table.entries,
            table.func,
            m,
            other,
        ),
{
    let t = table.func;
    let code = t.hash_of(m, k);
    let there = t.hash_of(m, other);
    let b = bucket_at(table.entries, code);
    lemma_scan(b, t, m, k, 0);
    lemma_scan(b, t, m, other, 0);
    let p = position(b, t, m, k);
    let q = position(b, t, m, other);
    if t.is_builtin() {
        lemma_builtin_is_lawful(t, m);
    }
    if p < b.len() && t.same(m, other, b[p].key.object) {
        assert(t.same(m, k, b[p].key.object) && t.same(m, b[p].key.object, k));
        assert(t.same(m, other, b[p].key.object) && t.same(m, b[p].key.object, k));
    }
    if there == code {
        // After the put.
        let put_b = bucket_put(b, t, m, k, v);
        assert forall|j: int| 0 <= j < q && j < put_b.len() implies !t.same(
            m,
            other,
            (#[trigger] put_b[j]).key.object,
        ) by {
            assert(put_b[j].key == b[j].key);
        }
        if q < b.len() {
            assert(put_b[q].key == b[q].key);
            lemma_position_is(put_b, t, m, other, q);
        } else {
            assert forall|j: int| 0 <= j < put_b.len() implies !t.same(
                m,
                other,
                (#[trigger] put_b[j]).key.object,
            ) by {
                if j < b.len() {
                    assert(put_b[j].key == b[j].key);
                }
            }
            lemma_position_is(put_b, t, m, other, put_b.len() as int);
        }
        // After the removal.
        if table.entries.contains_key(code) {
            let rem_b = bucket_remove(b, t, m, k);
            if p < b.len() {
                let q2 = if q < p {
                    q
                } else if q < b.len() {
                    q - 1
                } else {
                    rem_b.len() as int
                };
                assert forall|j: int| 0 <= j < q2 implies !t.same(
                    m,
                    other,
                    (#[trigger] rem_b[j]).key.object,
                ) by {
                    assert(rem_b[j] == b[if j < p {
                        j
                    } else {
                        j + 1
                    }]);
                }
                if q < b.len() {
                    assert(rem_b[q2] == b[q]);
                }
                lemma_position_is(rem_b, t, m, other, q2);
            }
            assert(bucket_at(with_bucket(table.entries, code, rem_b), code) =~= rem_b);
        }
    } else {
        assert(bucket_at(table.put(m, k, v).entries, there) == bucket_at(table.entries, there));
        assert(bucket_at(table.remove(m, k).entries, there) == bucket_at(table.entries, there));
    }
}

/// Under a lawful test, a key that was removed from a table in order is no
/// longer in it.
pub proof fn lemma_removed_key_is_gone(table: TableView, m: HostModel, k: Datum)
    requires
        table.func.is_builtin() || lawful(table.func, m),
        orderly(table.entries, table.func, m),
    ensures
        !has_key(table.remove(m, k).entries, table.func, m, k),
        table.remove(m, k).get(m, k) == Datum::Nil,
{
    let t = table.func;
    let code = t.hash_of(m, k);
    let b = bucket_at(table.entries, code);
    lemma_scan(b, t, m, k, 0);
    let p = position(b, t, m, k);
    if t.is_builtin() {
        lemma_builtin_is_lawful(t, m);
    }
    if table.entries.contains_key(code) {
        let after = bucket_remove(b, t, m, k);
        if p < b.len() {
            assert forall|j: int| 0 <= j < after.len() implies !t.same(
                m,
                k,
                (#[trigger] after[j]).key.object,
            ) by {
                let j0 = if j < p {
                    j
                } else {
                    j + 1
                };
                assert(after[j] == b[j0]);
                if j0 > p && t.same(m, k, b[j0].key.object) {
                    assert(!t.same(m, b[j0].key.object, b[p].key.object));
                    assert(t.same(m, b[j0].key.object, k) && t.same(m, k, b[p].key.object));
                }
            }
            lemma_position_is(after, t, m, k, after.len() as int);
        }
        assert(bucket_at(with_bucket(table.entries, code, after), code) =~= after);
    }
}

/// A key that was removed from a table with a built-in test is no longer in
/// it, whatever the runtime answers.
pub proof fn lemma_removed_key_leaves_table(table: &LispHashTable, m: HostModel, k: Datum)
    requires
        table.wf(),
        table@.func.is_builtin(),
    ensures
        !has_key(table@.remove(m, k).entries, table@.func, m, k),
        table@.remove(m, k).get(m, k) == Datum::Nil,
{
    table.lemma_in_order();
    lemma_builtin_order_ignores_runtime(table@.entries, table@.func, silent(), m);
    lemma_removed_key_is_gone(table@, m, k);
}

/// Under a lawful test, two keys that the test takes for the same get the
/// same answers from a table: both are present or both are absent, and
/// both have the same value.
pub proof fn lemma_same_keys_same_answers(table: TableView, m: HostModel, a: Datum, b: Datum)
    requires
        table.func.is_builtin() || lawful(table.func, m),
        table.func.same(m, a, b),
    ensures
        table.get(m, a) == table.get(m, b),
        has_key(table.entries, table.func, m, a) == has_key(table.entries, table.func, m, b),
{
    let t = table.func;
    if t.is_builtin() {
        lemma_builtin_is_lawful(t, m);
    }
    assert(t.same(m, b, a));
    let bucket = bucket_at(table.entries, t.hash_of(m, a));
    lemma_scan(bucket, t, m, a, 0);
    assert forall|j: int| 0 <= j < bucket.len() implies t.same(
        m,
        a,
        (#[trigger] bucket[j]).key.object,
    ) == t.same(m, b, bucket[j].key.object) by {
        let other = bucket[j].key.object;
        if t.same(m, a, other) {
            assert(t.same(m, b, a) && t.same(m, a, other));
        }
        if t.same(m, b, other) {
            assert(t.same(m, a, b) && t.same(m, b, other));
        }
    }
    lemma_position_is(bucket, t, m, b, position(bucket, t, m, a));
}

/// The table after each of `keys` was given the value at its place in
/// `values`, in order.
pub open spec fn put_all(table: TableView, m: HostModel, keys: Seq<Datum>, values: Seq<Datum>) -> TableView
    decreases keys.len(),
{
    if keys.len() == 0 {
        table
    } else {
        put_all(table, m, keys.drop_last(), values.drop_last()).put(m, keys.last(), values.last())
    }
}

/// The table after each of `keys` was removed, in order.
pub open spec fn remove_all(table: TableView, m: HostModel, keys: Seq<Datum>) -> TableView
    decreases keys.len(),
{
    if keys.len() == 0 {
        table
    } else {
        remove_all(table, m, keys.drop_last()).remove(m, keys.last())
    }
}

/// The test tells every two of the keys apart.
pub open spec fn all_apart(t: Test, m: HostModel, keys: Seq<Datum>) -> bool {
    forall|i: int, j: int|
        0 <= i < keys.len() && 0 <= j < keys.len() && i != j ==> !t.same(m, keys[i], keys[j])
}

/// The test takes `k` for the same as one of the keys.
pub open spec fn among(t: Test, m: HostModel, k: Datum, keys: Seq<Datum>) -> bool {
    exists|i: int| 0 <= i < keys.len() && t.same(m, k, #[trigger] keys[i])
}

/// Under a lawful test, the keys of a table after a series of puts are the
/// keys it had and the keys that were put; the test and the order of the
/// store stay.
pub proof fn lemma_keys_after_puts(
    table: TableView,
    m: HostModel,
    keys: Seq<Datum>,
    values: Seq<Datum>,
    k: Datum,
)
    requires
        table.func.is_builtin() || lawful(table.func, m),
        table.entries.dom().finite(),
        keys.len() == values.len(),
    ensures
        put_all(table, m, keys, values).func == table.func,
        put_all(table, m, keys, values).entries.dom().finite(),
        orderly(table.entries, table.func, m) ==> orderly(
            put_all(table, m, keys, values).entries,
            table.func,
            m,
        ),
        has_key(put_all(table, m, keys, values).entries, table.func, m, k) <==> has_key(
            table.entries,
            table.func,
            m,
            k,
        ) || among(table.func, m, k, keys),
    decreases keys.len(),
{
    let t = table.func;
    if keys.len() > 0 {
        let front = keys.drop_last();
        let before = put_all(table, m, front, values.drop_last());
        lemma_keys_after_puts(table, m, front, values.drop_last(), k);
        crate::store::lemma_put_keeps_order(before.entries, t, m, keys.last(), values.last());
        if t.same(m, k, keys.last()) {
            lemma_put_then_get(before, m, keys.last(), values.last());
            lemma_same_keys_same_answers(
                before.put(m, keys.last(), values.last()),
                m,
                k,
                keys.last(),
            );
            assert(t.same(m, k, keys[keys.len() - 1]));
        } else {
            lemma_other_keys_untouched(before, m, keys.last(), values.last(), k);
            if among(t, m, k, front) {
                let i = choose|i: int| 0 <= i < front.len() && t.same(m, k, #[trigger] front[i]);
                assert(t.same(m, k, keys[i]));
            }
            if among(t, m, k, keys) {
                let i = choose|i: int| 0 <= i < keys.len() && t.same(m, k, #[trigger] keys[i]);
                assert(i < front.len());
                assert(t.same(m, k, front[i]));
            }
        }
    }
}

/// Under a lawful test, the keys of a table in order after a series of
/// removals are the keys it had but for the keys that were removed.
pub proof fn lemma_keys_after_removals(table: TableView, m: HostModel, keys: Seq<Datum>, k: Datum)
    requires
        table.func.is_builtin() || lawful(table.func, m),
        table.entries.dom().finite(),
        orderly(table.entries, table.func, m),
    ensures
        remove_all(table, m, keys).func == table.func,
        remove_all(table, m, keys).entries.dom().finite(),
        orderly(remove_all(table, m, keys).entries, table.func, m),
        has_key(remove_all(table, m, keys).entries, table.func, m, k) <==> has_key(
            table.entries,
            table.func,
            m,
            k,
        ) && !among(table.func, m, k, keys),
    decreases keys.len(),
{
    let t = table.func;
    if keys.len() > 0 {
        let front = keys.drop_last();
        let before = remove_all(table, m, front);
        lemma_keys_after_removals(table, m, front, k);
        crate::store::lemma_remove_keeps_order(before.entries, t, m, keys.last());
        if t.same(m, k, keys.last()) {
            lemma_removed_key_is_gone(before, m, keys.last());
            lemma_same_keys_same_answers(before.remove(m, keys.last()), m, k, keys.last());
            assert(t.same(m, k, keys[keys.len() - 1]));
        } else {
            lemma_other_keys_untouched(before, m, keys.last(), Datum::Nil, k);
            if among(t, m, k, front) {
                let i = choose|i: int| 0 <= i < front.len() && t.same(m, k, #[trigger] front[i]);
                assert(t.same(m, k, keys[i]));
            }
            if among(t, m, k, keys) {
                let i = choose|i: int| 0 <= i < keys.len() && t.same(m, k, #[trigger] keys[i]);
                assert(i < front.len());
                assert(t.same(m, k, front[i]));
            }
        }
    }
}

/// Under a lawful test, and so under every built-in one, an empty table
/// that is given values for `n` keys that the test tells apart has `n`
/// entries.
pub proof fn lemma_count_after_puts(
    table: TableView,
    m: HostModel,
    keys: Seq<Datum>,
    values: Seq<Datum>,
)
    requires
        table.func.is_builtin() || lawful(table.func, m),
        table.entries == Map::<u64, Seq<EntryView>>::empty(),
        keys.len() == values.len(),
        all_apart(table.func, m, keys),
    ensures
        put_all(table, m, keys, values).count() == keys.len(),
    decreases keys.len(),
{
    let t = table.func;
    if keys.len() == 0 {
        lemma_count_empty(table.entries);
    } else {
        let front = keys.drop_last();
        let before = put_all(table, m, front, values.drop_last());
        assert(all_apart(t, m, front)) by {
            assert forall|i: int, j: int|
                0 <= i < front.len() && 0 <= j < front.len() && i != j implies !t.same(
                m,
                front[i],
                front[j],
            ) by {
                assert(front[i] == keys[i] && front[j] == keys[j]);
            }
        }
        lemma_count_after_puts(table, m, front, values.drop_last());
        lemma_keys_after_puts(table, m, front, values.drop_last(), keys.last());
        lemma_scan(bucket_at(table.entries, t.hash_of(m, keys.last())), t, m, keys.last(), 0);
        if among(t, m, keys.last(), front) {
            let i = choose|i: int|
                0 <= i < front.len() && t.same(m, keys.last(), #[trigger] front[i]);
            assert(t.same(m, keys[keys.len() - 1], keys[i]));
        }
        lemma_count_after_put(before, m, keys.last(), values.last());
    }
}

/// Under a lawful test, and so under every built-in one, an empty table
/// that is given values for `n` keys that the test tells apart, and from
/// which `k` of these keys are then removed, has `n - k` entries.
pub proof fn lemma_count_after_puts_and_removals(
    table: TableView,
    m: HostModel,
    keys: Seq<Datum>,
    values: Seq<Datum>,
    gone: Seq<Datum>,
)
    requires
        table.func.is_builtin() || lawful(table.func, m),
        table.entries == Map::<u64, Seq<EntryView>>::empty(),
        keys.len() == values.len(),
        all_apart(table.func, m, keys),
        all_apart(table.func, m, gone),
        forall|j: int| 0 <= j < gone.len() ==> among(table.func, m, #[trigger] gone[j], keys),
    ensures
        gone.len() <= keys.len(),
        remove_all(put_all(table, m, keys, values), m, gone).count() == keys.len() - gone.len(),
    decreases gone.len(),
{
    let t = table.func;
    let full = put_all(table, m, keys, values);
    lemma_count_after_puts(table, m, keys, values);
    lemma_keys_after_puts(table, m, keys, values, Datum::Nil);
    assert(orderly(table.entries, t, m));
    if gone.len() > 0 {
        let front = gone.drop_last();
        let last = gone.last();
        assert forall|i: int| 0 <= i < front.len() implies #[trigger] front[i] == gone[i] by {}
        assert(all_apart(t, m, front)) by {
            assert forall|i: int, j: int|
                0 <= i < front.len() && 0 <= j < front.len() && i != j implies !t.same(
                m,
                front[i],
                front[j],
            ) by {
                assert(front[i] == gone[i] && front[j] == gone[j]);
            }
        }
        assert forall|j: int| 0 <= j < front.len() implies among(t, m, #[trigger] front[j], keys) by {
            assert(among(t, m, gone[j], keys));
        }
        lemma_count_after_puts_and_removals(table, m, keys, values, front);
        let before = remove_all(full, m, front);
        lemma_keys_after_removals(full, m, front, last);
        lemma_keys_after_puts(table, m, keys, values, last);
        assert(among(t, m, gone[gone.len() - 1], keys));
        if among(t, m, last, front) {
            let i = choose|i: int| 0 <= i < front.len() && t.same(m, last, #[trigger] front[i]);
            assert(t.same(m, gone[gone.len() - 1], gone[i]));
        }
        assert(has_key(before.entries, t, m, last));
        lemma_count_after_remove(before, m, last);
    }
}

/// What a sweep leaves in a bucket are the entries that the weakness of the
/// table keeps, each as it was. In a table that is weak in its keys these
/// are the entries whose key is alive.
pub proof fn lemma_sweep_keeps_the_living(
    s: Buckets,
    w: Weakness,
    marked: Set<u64>,
    code: u64,
    e: EntryView,
)
    ensures
        bucket_at(swept(s, w, marked), code).contains(e) <==> bucket_at(s, code).contains(e)
            && keeps(w, marked, e),
        w == Weakness::Key ==> keeps(w, marked, e) == alive(marked, e.key.object),
{
    let b = bucket_at(s, code);
    let kept = sifted(b, w, marked);
    lemma_sifted_keeps_order(b, w, marked, Test::Eq, silent());
    if s.contains_key(code) {
        assert(bucket_at(swept(s, w, marked), code) =~= kept);
    } else {
        assert(kept.len() == 0);
    }
    if kept.contains(e) {
        let i = choose|i: int| 0 <= i < kept.len() && kept[i] == e;
        assert(b.contains(kept[i]));
    }
    if b.contains(e) && keeps(w, marked, e) {
        let i = choose|i: int| 0 <= i < b.len() && b[i] == e;
        assert(kept.contains(b[i]));
    }
}

/// A table that is weak in its keys, marked and then swept, holds exactly
/// the entries it held whose key is alive by other means: marked before the
/// collector reached the table, marked as part of the test of the table, or
/// not owned by the collector. Each of them is as it was, value and all.
pub proof fn lemma_mark_then_sweep(
    table: TableView,
    marked: Set<u64>,
    code: u64,
    e: EntryView,
)
    requires
        table.weakness() == Weakness::Key,
    ensures
        table.marked().swept(marked.union(reached(table))).header.mark == MarkState::Resolved,
        bucket_at(table.marked().swept(marked.union(reached(table))).entries, code).contains(e)
            <==> bucket_at(table.entries, code).contains(e) && alive(
            marked.union(test_cells(table.func)),
            e.key.object,
        ),
{
    lemma_sweep_keeps_the_living(table.entries, Weakness::Key, marked.union(reached(table)), code, e);
}

/// The copy of a table on a heap is a table of its own: it starts out the
/// same as the table it was made from, and a change to either leaves the
/// other as it was.
pub proof fn lemma_copy_stands_alone(heap: HeapView, r: LispHashTableRef, changed: TableView)
    requires
        heap.holds(r),
    ensures
        heap.duplicated(r).tables.len() == heap.tables.len() + 1,
        heap.duplicated(r).tables[heap.tables.len() as int] == heap.tables[r.index as int],
        heap.duplicated(r).tables[r.index as int] == heap.tables[r.index as int],
        heap.duplicated(r).tables.update(heap.tables.len() as int, changed)[r.index as int]
            == heap.tables[r.index as int],
        heap.duplicated(r).tables.update(r.index as int, changed)[heap.tables.len() as int]
            == heap.tables[r.index as int],
        forall|i: int|
            0 <= i < heap.tables.len() ==> heap.duplicated(r).tables[i] == #[trigger] heap.tables[i],
{
}

} // verus!
