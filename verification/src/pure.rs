//! Freezing a table: the copy of a table, and of all that it holds, that
//! goes into permanent storage.

use crate::bucket::{
    bucket_put, distinct, entries, hashed_to, lemma_bucket_put, lemma_position_is, put_in,
    wrapped_with, Entry, EntryView,
};
use crate::hashtable::{LispHashTable, TableView};
use crate::object::{lemma_frozen, Datum, LispObject};
use crate::store::{count, lemma_count_remove, silent, wrapped, Buckets, Store};
use crate::strategy::{agrees, callable, HashFunction, HashableLispObject, HostModel, Test};
use vstd::prelude::*;

verus! {

/// The frozen copy of a bucket: the frozen copies of its entries, put one
/// after the other, in their order, into an empty bucket under the test `t`.
pub open spec fn frozen_bucket(b: Seq<EntryView>, t: Test, m: HostModel) -> Seq<EntryView>
    decreases b.len(),
{
    if b.len() == 0 {
        Seq::empty()
    } else {
        bucket_put(
            frozen_bucket(b.drop_last(), t, m),
            t,
            m,
            b.last().key.object.frozen(),
            b.last().value.object.frozen(),
        )
    }
}

/// The frozen copy of a store: each bucket frozen, under the hash code that
/// it had.
pub open spec fn frozen_entries(s: Buckets, t: Test, m: HostModel) -> Buckets {
    Map::new(|code: u64| s.contains_key(code), |code: u64| frozen_bucket(s[code], t, m))
}

/// Every key and value of the bucket is in permanent storage or immediate.
pub open spec fn all_frozen(b: Seq<EntryView>) -> bool {
    forall|i: int|
        0 <= i < b.len() ==> (#[trigger] b[i]).key.object.frozen() == b[i].key.object
            && b[i].value.object.frozen() == b[i].value.object
}

impl TableView {
    /// The frozen copy of the table: strong, pure, with the frozen test and
    /// the frozen entries.
    pub open spec fn purecopy(self, m: HostModel) -> TableView {
        TableView {
            header: self.header,
            weak: Datum::Nil,
            is_pure: true,
            func: self.func.frozen(),
            entries: frozen_entries(self.entries, self.func.frozen(), m),
        }
    }
}

/// A frozen bucket is wrapped with its test, holds frozen objects only and
/// no key twice, is no longer than the bucket it was made from, and not
/// empty unless that was.
pub proof fn lemma_frozen_bucket(b: Seq<EntryView>, t: Test, m: HostModel)
    ensures
        wrapped_with(frozen_bucket(b, t, m), t),
        distinct(frozen_bucket(b, t, m), t, m),
        all_frozen(frozen_bucket(b, t, m)),
        frozen_bucket(b, t, m).len() <= b.len(),
        b.len() > 0 ==> frozen_bucket(b, t, m).len() > 0,
    decreases b.len(),
{
    if b.len() > 0 {
        let front = frozen_bucket(b.drop_last(), t, m);
        let k = b.last().key.object.frozen();
        let v = b.last().value.object.frozen();
        lemma_frozen_bucket(b.drop_last(), t, m);
        lemma_bucket_put(front, t, m, k, v);
        crate::bucket::lemma_scan(front, t, m, k, 0);
        lemma_frozen(b.last().key.object);
        lemma_frozen(b.last().value.object);
    }
}

/// Under a built-in test, freezing a bucket keeps the hash code of its keys.
pub proof fn lemma_frozen_bucket_hashed(b: Seq<EntryView>, t: Test, m: HostModel, code: u64)
    requires
        t.is_builtin(),
        hashed_to(b, t, m, code),
    ensures
        hashed_to(frozen_bucket(b, t, m), t, m, code),
    decreases b.len(),
{
    if b.len() > 0 {
        let front = frozen_bucket(b.drop_last(), t, m);
        let k = b.last().key.object.frozen();
        let v = b.last().value.object.frozen();
        assert(hashed_to(b.drop_last(), t, m, code)) by {
            assert forall|i: int| 0 <= i < b.drop_last().len() implies t.hash_of(
                m,
                (#[trigger] b.drop_last()[i]).key.object,
            ) == code by {
                assert(b.drop_last()[i] == b[i]);
            }
        }
        lemma_frozen_bucket_hashed(b.drop_last(), t, m, code);
        lemma_frozen(b.last().key.object);
        assert(t.hash_of(m, b[b.len() - 1].key.object) == code);
        assert(t.hash_of(m, k) == code);
        lemma_bucket_put(front, t, m, k, v);
    }
}

/// A bucket that is wrapped with its test and holds frozen objects only
/// and no key twice is its own frozen copy.
pub proof fn lemma_frozen_bucket_fixed(b: Seq<EntryView>, t: Test, m: HostModel)
    requires
        wrapped_with(b, t),
        distinct(b, t, m),
        all_frozen(b),
    ensures
        frozen_bucket(b, t, m) == b,
    decreases b.len(),
{
    if b.len() > 0 {
        let front = b.drop_last();
        let last = b.last();
        assert(wrapped_with(front, t) && all_frozen(front) && distinct(front, t, m)) by {
            assert forall|i: int| 0 <= i < front.len() implies #[trigger] front[i] == b[i] by {}
            assert forall|i: int, j: int| 0 <= i < j < front.len() implies !t.same(
                m,
                #[trigger] front[j].key.object,
                #[trigger] front[i].key.object,
            ) by {
                assert(front[j] == b[j] && front[i] == b[i]);
            }
        }
        lemma_frozen_bucket_fixed(front, t, m);
        assert forall|j: int| 0 <= j < front.len() implies !t.same(
            m,
            last.key.object,
            (#[trigger] front[j]).key.object,
        ) by {
            assert(front[j] == b[j]);
            assert(!t.same(m, b[b.len() - 1].key.object, b[j].key.object));
        }
        lemma_position_is(front, t, m, last.key.object, front.len() as int);
        assert(b[b.len() - 1] == last);
        assert(frozen_bucket(b, t, m) =~= b);
    }
}

/// Freezing twice gives what freezing once gives: the frozen copy of a
/// table is its own frozen copy.
pub proof fn lemma_purecopy_idempotent(table: TableView, m: HostModel)
    ensures
        table.purecopy(m).purecopy(m) == table.purecopy(m),
        table.purecopy(m).is_pure,
        table.purecopy(m).weakness() == crate::hashtable::Weakness::Strong,
{
    let once = table.purecopy(m);
    let t = once.func;
    match table.func {
        Test::UserFunc(name, same, hash) => {
            lemma_frozen(name);
            lemma_frozen(same);
            lemma_frozen(hash);
        },
        _ => {},
    }
    assert(t.frozen() == t);
    assert forall|code: u64| once.entries.contains_key(code) implies frozen_bucket(
        #[trigger] once.entries[code],
        t,
        m,
    ) == once.entries[code] by {
        lemma_frozen_bucket(table.entries[code], t, m);
        lemma_frozen_bucket_fixed(once.entries[code], t, m);
    }
    assert(frozen_entries(once.entries, t, m) =~= once.entries);
}

fn freeze_bucket<H: Fn(&LispObject, &Vec<LispObject>) -> LispObject>(
    bucket: &Vec<Entry>,
    func: &HashFunction,
    host: &H,
) -> (out: Vec<Entry>)
    requires
        callable(host),
    ensures
        out.len() <= bucket.len(),
        bucket.len() > 0 ==> out.len() > 0,
        wrapped_with(entries(out@), func@),
        forall|m: HostModel|
            func@.is_builtin() || agrees(host, m) ==> entries(out@) == #[trigger] frozen_bucket(
                entries(bucket@),
                func@,
                m,
            ),
{
    let ghost b = entries(bucket@);
    let ghost t = func@;
    let mut out: Vec<Entry> = Vec::new();
    let mut j: usize = 0;
    proof {
        assert(b.take(0) =~= Seq::<EntryView>::empty());
        assert(entries(out@) =~= Seq::<EntryView>::empty());
    }
    while j < bucket.len()
        invariant
            callable(host),
            0 <= j <= bucket.len(),
            b == entries(bucket@),
            t == func@,
            out.len() <= j,
            j > 0 ==> out.len() > 0,
            wrapped_with(entries(out@), t),
            forall|m: HostModel|
                t.is_builtin() || agrees(host, m) ==> entries(out@) == #[trigger] frozen_bucket(
                    b.take(j as int),
                    t,
                    m,
                ),
        decreases bucket.len() - j,
    {
        let ghost before = entries(out@);
        let key = HashableLispObject::with_hashfunc_and_object(
            bucket[j].key.object.purecopy(),
            func.clone(),
        );
        let value = HashableLispObject::with_hashfunc_and_object(
            bucket[j].value.object.purecopy(),
            func.clone(),
        );
        put_in(&mut out, key, value, host);
        proof {
            let large = b.take(j + 1);
            assert(large.drop_last() =~= b.take(j as int));
            assert(large.last() == b[j as int]);
            assert forall|m: HostModel| t.is_builtin() || agrees(host, m) implies entries(out@)
                == #[trigger] frozen_bucket(large, t, m) by {
                assert(before == frozen_bucket(b.take(j as int), t, m));
                assert(entries(out@) == bucket_put(
                    before,
                    t,
                    m,
                    b[j as int].key.object.frozen(),
                    b[j as int].value.object.frozen(),
                ));
            }
        }
        j = j + 1;
    }
    proof {
        assert(b.take(j as int) =~= b);
    }
    out
}

/// The frozen copy of a table: a table of its own, strong and pure, whose
/// test and entries are the frozen copies of those of `map`. Every bucket
/// is frozen entry by entry, in order, under the hash code it had; entries
/// whose frozen keys the test takes for the same fall into one. The store
/// of the copy is made for as many entries as `map` has.
pub fn pure_copy_hashtable<H: Fn(&LispObject, &Vec<LispObject>) -> LispObject>(
    map: &LispHashTable,
    host: &H,
) -> (out: LispHashTable)
    requires
        callable(host),
        map.wf(),
    ensures
        out.wf(),
        out@.header == map@.header,
        out@.weak == Datum::Nil,
        out@.is_pure,
        out@.func == map@.func.frozen(),
        out@.entries.dom() == map@.entries.dom(),
        out@.count() <= map@.count(),
        forall|m: HostModel|
            map@.func.is_builtin() || agrees(host, m) ==> out@ == #[trigger] map@.purecopy(m),
{
    let func = map.func.purecopy();
    let ghost s = map@.entries;
    let ghost t = func@;
    let size = map.map.len();
    let mut store = Store::with_capacity(
        if size <= 65536 {
            size as usize
        } else {
            65536
        },
    );
    let codes = map.map.codes();
    let ghost mut rest: Buckets = s;
    let mut i: usize = 0;
    proof {
        assert(codes@.take(0) =~= Seq::<u64>::empty());
    }
    while i < codes.len()
        invariant
            callable(host),
            0 <= i <= codes.len(),
            map.wf(),
            s == map@.entries,
            t == func@,
            t == map@.func.frozen(),
            codes@.no_duplicates(),
            codes@.to_set() == s.dom(),
            store.wf(),
            rest.dom().finite(),
            forall|c: u64|
                rest.contains_key(c) <==> s.contains_key(c) && !codes@.take(i as int).contains(c),
            forall|c: u64| rest.contains_key(c) ==> #[trigger] rest[c] == s[c],
            store.count + count(rest) <= count(s),
            forall|c: u64| store@.contains_key(c) <==> codes@.take(i as int).contains(c),
            wrapped(store@, t),
            forall|c: u64| #[trigger] store@.contains_key(c) ==> 0 < store@[c].len(),
            forall|m: HostModel, c: u64|
                (t.is_builtin() || agrees(host, m)) && store@.contains_key(c) ==> store@[c]
                    == #[trigger] frozen_bucket(s[c], t, m),
        decreases codes.len() - i,
    {
        let code = codes[i];
        let ghost current = store@;
        let ghost done = codes@.take(i as int);
        let ghost more = codes@.take(i + 1);
        proof {
            assert(codes@.to_set().contains(codes@[i as int]));
            if done.contains(code) {
                let k = choose|k: int| 0 <= k < done.len() && done[k] == code;
                assert(codes@[k] == codes@[i as int]);
            }
            assert(rest.contains_key(code));
            lemma_count_remove(rest, code);
            assert forall|c: u64| more.contains(c) <==> done.contains(c) || c == code by {
                if more.contains(c) {
                    let k = choose|k: int| 0 <= k < more.len() && more[k] == c;
                    if k < i {
                        assert(done[k] == c);
                    }
                }
                if done.contains(c) {
                    let k = choose|k: int| 0 <= k < done.len() && done[k] == c;
                    assert(more[k] == c);
                }
                if c == code {
                    assert(more[i as int] == c);
                }
            }
        }
        let frozen = freeze_bucket(map.map.bucket(code), &func, host);
        store.set_bucket(code, frozen);
        proof {
            rest = rest.remove(code);
            assert(store@ =~= current.insert(code, entries(frozen@)));
            assert forall|m: HostModel, c: u64|
                (t.is_builtin() || agrees(host, m)) && store@.contains_key(c) implies store@[c]
                == #[trigger] frozen_bucket(s[c], t, m) by {
                if c != code {
                    assert(current.contains_key(c));
                }
            }
            assert(wrapped(store@, t)) by {
                assert forall|c: u64| #[trigger] store@.contains_key(c) implies wrapped_with(
                    store@[c],
                    t,
                ) by {
                    if c != code {
                        assert(current.contains_key(c));
                    }
                }
            }
            assert forall|c: u64| #[trigger] store@.contains_key(c) implies 0 < store@[c].len() by {
                if c != code {
                    assert(current.contains_key(c));
                }
            }
        }
        i = i + 1;
    }
    let out = LispHashTable {
        header: map.header,
        weak: LispObject::constant_nil().purecopy(),
        is_pure: true,
        func,
        map: store,
    };
    proof {
        assert(codes@.take(i as int) =~= codes@);
        assert forall|c: u64| s.contains_key(c) <==> codes@.contains(c) by {
            if s.contains_key(c) {
                assert(codes@.to_set().contains(c));
            }
            if codes@.contains(c) {
                assert(codes@.to_set().contains(c));
            }
        }
        assert(out@.entries.dom() =~= s.dom());
        assert forall|m: HostModel| map@.func.is_builtin() || agrees(host, m) implies out@
            == #[trigger] map@.purecopy(m) by {
            assert(t.is_builtin() == map@.func.is_builtin());
            assert forall|c: u64| out@.entries.contains_key(c) implies out@.entries[c]
                == frozen_entries(s, t, m)[c] by {
                assert(out@.entries[c] == frozen_bucket(s[c], t, m));
            }
            assert(out@.entries =~= frozen_entries(s, t, m));
        }
        if t.is_builtin() {
            assert(t == map@.func);
            assert forall|c: u64| #[trigger] out@.entries.contains_key(c) implies hashed_to(
                out@.entries[c],
                t,
                silent(),
                c,
            ) && distinct(out@.entries[c], t, silent()) by {
                assert(out@.entries[c] == frozen_bucket(s[c], t, silent()));
                lemma_frozen_bucket(s[c], t, silent());
                lemma_frozen_bucket_hashed(s[c], t, silent(), c);
            }
        }
    }
    out
}

} // verus!
