//! One bucket of a table: the entries whose keys share a hash code, in the
//! order in which they came, searched from the front.

use crate::object::{Datum, LispObject};
use crate::strategy::{agrees, callable, HashableLispObject, HostModel, Keyed, Test};
use vstd::prelude::*;

verus! {

/// A key and its value, each wrapped with the test of the table.
#[derive(Debug, PartialEq, Eq)]
pub struct Entry {
    pub key: HashableLispObject,
    pub value: HashableLispObject,
}

/// The mathematical value of an [`Entry`].
pub struct EntryView {
    pub key: Keyed,
    pub value: Keyed,
}

impl View for Entry {
    type V = EntryView;

    open spec fn view(&self) -> EntryView {
        EntryView { key: self.key@, value: self.value@ }
    }
}

impl Clone for Entry {
    fn clone(&self) -> (out: Entry)
        ensures
            out@ == self@,
    {
        Entry { key: self.key.clone(), value: self.value.clone() }
    }
}

/// The values of a list of entries.
pub open spec fn entries(b: Seq<Entry>) -> Seq<EntryView> {
    b.map_values(|e: Entry| e@)
}

/// The entry that holds `k` and `v` under the test `t`.
pub open spec fn entry_of(t: Test, k: Datum, v: Datum) -> EntryView {
    EntryView { key: Keyed { object: k, func: t }, value: Keyed { object: v, func: t } }
}

/// The first place at or after `from` whose key the test takes for the same
/// as `k`, asked with `k` first; the length of the bucket if there is none.
pub open spec fn scan(b: Seq<EntryView>, t: Test, m: HostModel, k: Datum, from: int) -> int
    decreases b.len() - from,
{
    if from < 0 || from >= b.len() {
        b.len() as int
    } else if t.same(m, k, b[from].key.object) {
        from
    } else {
        scan(b, t, m, k, from + 1)
    }
}

/// The place of `k` in the bucket: that of the first entry whose key is the
/// same as `k`, or the length of the bucket if no entry has such a key.
pub open spec fn position(b: Seq<EntryView>, t: Test, m: HostModel, k: Datum) -> int {
    scan(b, t, m, k, 0)
}

/// The bucket after `k` is given the value `v`: the entry of `k` keeps its
/// key and takes the new value; where there is none, a new entry comes last.
pub open spec fn bucket_put(b: Seq<EntryView>, t: Test, m: HostModel, k: Datum, v: Datum) -> Seq<
    EntryView,
> {
    let p = position(b, t, m, k);
    if p < b.len() {
        b.update(p, EntryView { key: b[p].key, value: Keyed { object: v, func: t } })
    } else {
        b.push(entry_of(t, k, v))
    }
}

/// The value that the bucket holds for `k`, nil if it holds none.
pub open spec fn bucket_get(b: Seq<EntryView>, t: Test, m: HostModel, k: Datum) -> Datum {
    let p = position(b, t, m, k);
    if p < b.len() {
        b[p].value.object
    } else {
        Datum::Nil
    }
}

/// The bucket without the entry of `k`.
pub open spec fn bucket_remove(b: Seq<EntryView>, t: Test, m: HostModel, k: Datum) -> Seq<
    EntryView,
> {
    let p = position(b, t, m, k);
    if p < b.len() {
        b.remove(p)
    } else {
        b
    }
}

/// No entry of the bucket has a key that the test takes for the same as the
/// key of an entry before it.
pub open spec fn distinct(b: Seq<EntryView>, t: Test, m: HostModel) -> bool {
    forall|i: int, j: int|
        0 <= i < j < b.len() ==> !t.same(m, #[trigger] b[j].key.object, #[trigger] b[i].key.object)
}

/// Every key and value of the bucket is wrapped with the test `t`.
pub open spec fn wrapped_with(b: Seq<EntryView>, t: Test) -> bool {
    forall|i: int| 0 <= i < b.len() ==> (#[trigger] b[i]).key.func == t && b[i].value.func == t
}

/// Every key of the bucket has the hash code `code`.
pub open spec fn hashed_to(b: Seq<EntryView>, t: Test, m: HostModel, code: u64) -> bool {
    forall|i: int| 0 <= i < b.len() ==> t.hash_of(m, (#[trigger] b[i]).key.object) == code
}

/// What `scan` finds: nothing between `from` and the result is the same as
/// `k`, and the entry at the result, if there is one, is.
pub proof fn lemma_scan(b: Seq<EntryView>, t: Test, m: HostModel, k: Datum, from: int)
    requires
        0 <= from <= b.len(),
    ensures
        from <= scan(b, t, m, k, from) <= b.len(),
        scan(b, t, m, k, from) < b.len() ==> t.same(m, k, b[scan(b, t, m, k, from)].key.object),
        forall|j: int|
            from <= j < scan(b, t, m, k, from) ==> !t.same(m, k, (#[trigger] b[j]).key.object),
    decreases b.len() - from,
{
    if from < b.len() && !t.same(m, k, b[from].key.object) {
        lemma_scan(b, t, m, k, from + 1);
    }
}

/// A place is the place of `k` as soon as its key is the same as `k` and no
/// key before it is.
pub proof fn lemma_position_is(b: Seq<EntryView>, t: Test, m: HostModel, k: Datum, p: int)
    requires
        0 <= p <= b.len(),
        p < b.len() ==> t.same(m, k, b[p].key.object),
        forall|j: int| 0 <= j < p ==> !t.same(m, k, (#[trigger] b[j]).key.object),
    ensures
        position(b, t, m, k) == p,
{
    lemma_scan(b, t, m, k, 0);
    let q = position(b, t, m, k);
    if q < p {
        assert(!t.same(m, k, b[q].key.object));
    }
}

/// The index of the first entry of `bucket` whose key is the same as
/// `probe`, or the length of the bucket.
pub(crate) fn find<H: Fn(&LispObject, &Vec<LispObject>) -> LispObject>(
    bucket: &Vec<Entry>,
    probe: &HashableLispObject,
    host: &H,
) -> (at: usize)
    requires
        callable(host),
    ensures
        at <= bucket.len(),
        forall|m: HostModel|
            probe.func@.is_builtin() || agrees(host, m) ==> at == #[trigger] position(
                entries(bucket@),
                probe.func@,
                m,
                probe.object@,
            ),
{
    let mut i: usize = 0;
    while i < bucket.len()
        invariant
            callable(host),
            0 <= i <= bucket.len(),
            forall|m: HostModel, j: int|
                (probe.func@.is_builtin() || agrees(host, m)) && 0 <= j < i ==> !#[trigger] probe.func@.same(
                    m,
                    probe.object@,
                    entries(bucket@)[j].key.object,
                ),
        decreases bucket.len() - i,
    {
        let hit = probe.eq(&bucket[i].key, host);
        proof {
            assert forall|m: HostModel|
                probe.func@.is_builtin() || agrees(host, m) implies hit == #[trigger] probe.func@.same(
                m,
                probe.object@,
                entries(bucket@)[i as int].key.object,
            ) by {
                assert(hit == probe.func@.same(m, probe.object@, bucket[i as int].key.object@));
            }
        }
        if hit {
            proof {
                assert forall|m: HostModel|
                    probe.func@.is_builtin() || agrees(host, m) implies i == #[trigger] position(
                    entries(bucket@),
                    probe.func@,
                    m,
                    probe.object@,
                ) by {
                    assert(hit == probe.func@.same(m, probe.object@, bucket[i as int].key.object@));
                    lemma_position_is(entries(bucket@), probe.func@, m, probe.object@, i as int);
                }
            }
            return i;
        }
        i = i + 1;
    }
    proof {
        assert forall|m: HostModel|
            probe.func@.is_builtin() || agrees(host, m) implies i == #[trigger] position(
            entries(bucket@),
            probe.func@,
            m,
            probe.object@,
        ) by {
            lemma_position_is(entries(bucket@), probe.func@, m, probe.object@, i as int);
        }
    }
    i
}

/// Gives `key` the value `value` in `bucket`: the first entry whose key is
/// the same as `key` keeps its key and takes the value; where there is
/// none, a new entry comes last.
pub(crate) fn put_in<H: Fn(&LispObject, &Vec<LispObject>) -> LispObject>(
    bucket: &mut Vec<Entry>,
    key: HashableLispObject,
    value: HashableLispObject,
    host: &H,
)
    requires
        callable(host),
        value.func@ == key.func@,
    ensures
        old(bucket).len() <= final(bucket).len() <= old(bucket).len() + 1,
        final(bucket).len() > 0,
        wrapped_with(entries(old(bucket)@), key.func@) ==> wrapped_with(
            entries(final(bucket)@),
            key.func@,
        ),
        forall|m: HostModel|
            key.func@.is_builtin() || agrees(host, m) ==> entries(final(bucket)@)
                == #[trigger] bucket_put(
                entries(old(bucket)@),
                key.func@,
                m,
                key.object@,
                value.object@,
            ),
{
    let ghost was = entries(bucket@);
    let ghost t = key.func@;
    let ghost kv = key@;
    let ghost vv = value@;
    let at = find(bucket, &key, host);
    if at < bucket.len() {
        let kept = bucket[at].key.clone();
        bucket.set(at, Entry { key: kept, value });
    } else {
        bucket.push(Entry { key, value });
    }
    proof {
        let now = entries(bucket@);
        assert(now =~= (if at < was.len() {
            was.update(at as int, EntryView { key: was[at as int].key, value: vv })
        } else {
            was.push(EntryView { key: kv, value: vv })
        }));
        assert forall|m: HostModel| t.is_builtin() || agrees(host, m) implies now
            == #[trigger] bucket_put(was, t, m, kv.object, vv.object) by {
            assert(at == position(was, t, m, kv.object));
        }
    }
}

/// Putting a key leaves a bucket without repeated keys as it was in that,
/// keeps the hash code of its keys, and adds at most one entry.
pub proof fn lemma_bucket_put(b: Seq<EntryView>, t: Test, m: HostModel, k: Datum, v: Datum)
    ensures
        distinct(b, t, m) ==> distinct(bucket_put(b, t, m, k, v), t, m),
        wrapped_with(b, t) ==> wrapped_with(bucket_put(b, t, m, k, v), t),
        hashed_to(b, t, m, t.hash_of(m, k)) ==> hashed_to(
            bucket_put(b, t, m, k, v),
            t,
            m,
            t.hash_of(m, k),
        ),
        bucket_put(b, t, m, k, v).len() == b.len() + (if position(b, t, m, k) < b.len() {
            0int
        } else {
            1int
        }),
{
    lemma_scan(b, t, m, k, 0);
}

/// Removing a key leaves a bucket without repeated keys as it was in that,
/// and takes away the one entry of the key, if there was one.
pub proof fn lemma_bucket_remove(b: Seq<EntryView>, t: Test, m: HostModel, k: Datum)
    ensures
        distinct(b, t, m) ==> distinct(bucket_remove(b, t, m, k), t, m),
        wrapped_with(b, t) ==> wrapped_with(bucket_remove(b, t, m, k), t),
        forall|c: u64| hashed_to(b, t, m, c) ==> hashed_to(bucket_remove(b, t, m, k), t, m, c),
        bucket_remove(b, t, m, k).len() == b.len() - (if position(b, t, m, k) < b.len() {
            1int
        } else {
            0int
        }),
{
    lemma_scan(b, t, m, k, 0);
    let p = position(b, t, m, k);
    let r = bucket_remove(b, t, m, k);
    if p < b.len() {
        assert forall|i: int| 0 <= i < r.len() implies #[trigger] r[i] == b[if i < p {
            i
        } else {
            i + 1
        }] by {}
        if distinct(b, t, m) {
            assert forall|i: int, j: int| 0 <= i < j < r.len() implies !t.same(
                m,
                #[trigger] r[j].key.object,
                #[trigger] r[i].key.object,
            ) by {
                let i0 = if i < p { i } else { i + 1 };
                let j0 = if j < p { j } else { j + 1 };
                assert(!t.same(m, b[j0].key.object, b[i0].key.object));
            }
        }
    }
}

} // verus!
