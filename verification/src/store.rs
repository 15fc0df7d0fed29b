//! The backing store of a table: an FNV-hashed map from hash codes to
//! buckets, what it holds, and what the operations of a table do to that.

use crate::bucket::{
    bucket_get, bucket_put, bucket_remove, entries, find, lemma_bucket_put, lemma_bucket_remove,
    position, put_in, Entry, EntryView,
};
use crate::object::{Datum, LispObject};
use crate::strategy::{agrees, callable, HashableLispObject, HostModel, Test};
use fnv::FnvHashMap;
use vstd::prelude::*;

verus! {

/// `fnv::FnvHasher`, the hasher of the store. Nothing is said of its state.
#[verifier::external_type_specification]
#[verifier::external_body]
pub struct ExFnvHasher(fnv::FnvHasher);

/// `std::hash::BuildHasherDefault`, through which the store builds its
/// hashers. Nothing is said of it.
#[verifier::external_type_specification]
#[verifier::external_body]
#[verifier::reject_recursive_types(H)]
pub struct ExBuildHasherDefault<H>(std::hash::BuildHasherDefault<H>);

/// The largest capacity that a store is asked to set aside in advance.
pub const CAPACITY_LIMIT: usize = 65536;

/// What a table holds: for each hash code in use, the bucket of that code.
pub type Buckets = Map<u64, Seq<EntryView>>;

/// What a store holds.
pub open spec fn contents(map: FnvHashMap<u64, Vec<Entry>>) -> Buckets {
    map@.map_values(|b: Vec<Entry>| entries(b@))
}

/// A store has a bucket exactly for the codes that its map has as keys.
pub proof fn lemma_contents_dom(map: FnvHashMap<u64, Vec<Entry>>)
    ensures
        contents(map).dom() == map@.dom(),
{
    assert(contents(map).dom() =~= map@.dom());
}

/// `FnvHashMap::with_capacity_and_hasher`, with the default FNV hasher: the
/// new map has no key. The capacity is kept small enough for the allocation
/// size to be computed without overflow.
#[verifier::external_body]
pub(crate) fn fnv_with_capacity(cap: usize) -> (fresh: FnvHashMap<u64, Vec<Entry>>)
    requires
        cap <= CAPACITY_LIMIT,
    ensures
        forall|k: u64| !fresh@.contains_key(k),
{
    FnvHashMap::with_capacity_and_hasher(cap, Default::default())
}

/// `HashMap::insert` on an FNV-hashed map: afterwards the key maps to the
/// given bucket and every other key to what it mapped to before; the bucket
/// that the key had before, if any, comes back.
#[verifier::external_body]
pub(crate) fn fnv_insert(map: &mut FnvHashMap<u64, Vec<Entry>>, code: u64, bucket: Vec<Entry>) -> (prev:
    Option<Vec<Entry>>)
    ensures
        final(map)@ == old(map)@.insert(code, bucket),
        old(map)@.contains_key(code) ==> prev == Some(old(map)@[code]),
        !old(map)@.contains_key(code) ==> prev is None,
{
    map.insert(code, bucket)
}

/// `HashMap::remove` on an FNV-hashed map: afterwards the key is gone and
/// every other key maps to what it mapped to before; the bucket that the key
/// had, if any, comes back.
#[verifier::external_body]
pub(crate) fn fnv_remove(map: &mut FnvHashMap<u64, Vec<Entry>>, code: u64) -> (prev: Option<
    Vec<Entry>,
>)
    ensures
        final(map)@ == old(map)@.remove(code),
        old(map)@.contains_key(code) ==> prev == Some(old(map)@[code]),
        !old(map)@.contains_key(code) ==> prev is None,
{
    map.remove(&code)
}

/// `HashMap::get` on an FNV-hashed map: the bucket of the key, if the map
/// has the key.
#[verifier::external_body]
pub(crate) fn fnv_get(map: &FnvHashMap<u64, Vec<Entry>>, code: u64) -> (found: Option<&Vec<Entry>>)
    ensures
        map@.contains_key(code) ==> found == Some(&map@[code]),
        !map@.contains_key(code) ==> found is None,
{
    map.get(&code)
}

/// `HashMap::keys` on an FNV-hashed map, collected: every key of the map
/// once, in an order of which nothing is said.
#[verifier::external_body]
pub(crate) fn fnv_keys(map: &FnvHashMap<u64, Vec<Entry>>) -> (codes: Vec<u64>)
    ensures
        codes@.no_duplicates(),
        codes@.to_set() == map@.dom(),
{
    map.keys().copied().collect()
}

/// The bucket of `code`, empty where the code is not in use.
pub open spec fn bucket_at(s: Buckets, code: u64) -> Seq<EntryView> {
    if s.contains_key(code) {
        s[code]
    } else {
        Seq::empty()
    }
}

/// The store with `bucket` as the bucket of `code`; an empty bucket means
/// that the code is no longer in use.
pub open spec fn with_bucket(s: Buckets, code: u64, bucket: Seq<EntryView>) -> Buckets {
    if bucket.len() == 0 {
        s.remove(code)
    } else {
        s.insert(code, bucket)
    }
}

/// The store after `k` is given the value `v` under the test `t`.
pub open spec fn put(s: Buckets, t: Test, m: HostModel, k: Datum, v: Datum) -> Buckets {
    let code = t.hash_of(m, k);
    s.insert(code, bucket_put(bucket_at(s, code), t, m, k, v))
}

/// The value that the store holds for `k` under the test `t`; nil if none.
pub open spec fn get(s: Buckets, t: Test, m: HostModel, k: Datum) -> Datum {
    bucket_get(bucket_at(s, t.hash_of(m, k)), t, m, k)
}

/// The store without the entry of `k`.
pub open spec fn remove(s: Buckets, t: Test, m: HostModel, k: Datum) -> Buckets {
    let code = t.hash_of(m, k);
    if s.contains_key(code) {
        with_bucket(s, code, bucket_remove(s[code], t, m, k))
    } else {
        s
    }
}

/// Whether the store holds an entry for `k`.
pub open spec fn has_key(s: Buckets, t: Test, m: HostModel, k: Datum) -> bool {
    let b = bucket_at(s, t.hash_of(m, k));
    crate::bucket::position(b, t, m, k) < b.len()
}

/// Every bucket holds keys of its own hash code only, and none twice.
pub open spec fn orderly(s: Buckets, t: Test, m: HostModel) -> bool {
    forall|code: u64| #[trigger]
        s.contains_key(code) ==> crate::bucket::hashed_to(s[code], t, m, code)
            && crate::bucket::distinct(s[code], t, m)
}

/// Every key and value of the store is wrapped with the test `t`.
pub open spec fn wrapped(s: Buckets, t: Test) -> bool {
    forall|code: u64| #[trigger] s.contains_key(code) ==> crate::bucket::wrapped_with(s[code], t)
}

/// A runtime that answers nil to every call. It stands in where the test
/// of a table asks the runtime nothing.
pub open spec fn silent() -> HostModel {
    |f: Datum, args: Seq<Datum>| Datum::Nil
}

/// Under a built-in test the order of a store is the same whatever the
/// runtime answers, since the test asks it nothing.
pub proof fn lemma_builtin_order_ignores_runtime(s: Buckets, t: Test, m: HostModel, other: HostModel)
    requires
        t.is_builtin(),
        orderly(s, t, m),
    ensures
        orderly(s, t, other),
{
    assert forall|code: u64| #[trigger] s.contains_key(code) implies crate::bucket::hashed_to(
        s[code],
        t,
        other,
        code,
    ) && crate::bucket::distinct(s[code], t, other) by {
        let b = s[code];
        assert(crate::bucket::hashed_to(b, t, m, code));
        assert(crate::bucket::distinct(b, t, m));
        assert forall|i: int| 0 <= i < b.len() implies t.hash_of(
            other,
            (#[trigger] b[i]).key.object,
        ) == code by {
            assert(t.hash_of(m, b[i].key.object) == code);
        }
        assert forall|i: int, j: int| 0 <= i < j < b.len() implies !t.same(
            other,
            #[trigger] b[j].key.object,
            #[trigger] b[i].key.object,
        ) by {
            assert(!t.same(m, b[j].key.object, b[i].key.object));
        }
    }
}

/// Putting a key keeps a store in order and its entries wrapped.
pub proof fn lemma_put_keeps_order(s: Buckets, t: Test, m: HostModel, k: Datum, v: Datum)
    ensures
        orderly(s, t, m) ==> orderly(put(s, t, m, k, v), t, m),
        wrapped(s, t) ==> wrapped(put(s, t, m, k, v), t),
{
    let code = t.hash_of(m, k);
    lemma_bucket_put(bucket_at(s, code), t, m, k, v);
}

/// Removing a key keeps a store in order and its entries wrapped.
pub proof fn lemma_remove_keeps_order(s: Buckets, t: Test, m: HostModel, k: Datum)
    ensures
        orderly(s, t, m) ==> orderly(remove(s, t, m, k), t, m),
        wrapped(s, t) ==> wrapped(remove(s, t, m, k), t),
{
    let code = t.hash_of(m, k);
    if s.contains_key(code) {
        lemma_bucket_remove(s[code], t, m, k);
    }
}

/// The number of entries in all buckets together.
pub open spec fn count(s: Buckets) -> nat
    decreases s.dom().len(),
    when s.dom().finite()
{
    if s.dom().len() == 0 {
        0
    } else {
        let code = s.dom().choose();
        s[code].len() + count(s.remove(code))
    }
}

/// The count of a store is the length of any one bucket plus the count of
/// the rest.
pub proof fn lemma_count_remove(s: Buckets, code: u64)
    requires
        s.dom().finite(),
        s.contains_key(code),
    ensures
        count(s) == s[code].len() + count(s.remove(code)),
    decreases s.dom().len(),
{
    let first = s.dom().choose();
    if first != code {
        let rest = s.remove(first);
        lemma_count_remove(rest, code);
        let other = s.remove(code);
        assert(other.contains_key(first));
        lemma_count_remove(other, first);
        assert(rest.remove(code) =~= other.remove(first));
    }
}

/// The count of a store that got a bucket is the length of that bucket plus
/// the count of the other buckets.
pub proof fn lemma_count_insert(s: Buckets, code: u64, bucket: Seq<EntryView>)
    requires
        s.dom().finite(),
    ensures
        count(s.insert(code, bucket)) == bucket.len() + count(s.remove(code)),
        count(s) == bucket_at(s, code).len() + count(s.remove(code)),
{
    let t = s.insert(code, bucket);
    lemma_count_remove(t, code);
    assert(t.remove(code) =~= s.remove(code));
    if s.contains_key(code) {
        lemma_count_remove(s, code);
    } else {
        assert(s.remove(code) =~= s);
    }
}

/// A store without buckets has no entries.
pub proof fn lemma_count_empty(s: Buckets)
    requires
        s.dom() =~= Set::empty(),
    ensures
        count(s) == 0,
{
}

/// The backing store of a table: the map from hash codes to buckets, and
/// the number of entries in it.
pub struct Store {
    pub(crate) map: FnvHashMap<u64, Vec<Entry>>,
    pub(crate) count: u64,
}

/// The largest number of entries that a store counts: the largest fixnum.
pub const COUNT_LIMIT: u64 = 0x7fff_ffff_ffff_ffff;

impl View for Store {
    type V = Buckets;

    open(crate) spec fn view(&self) -> Buckets {
        contents(self.map)
    }
}

impl Store {
    /// The store has finitely many buckets, none of them empty, and knows
    /// how many entries they hold together.
    pub open(crate) spec fn wf(&self) -> bool {
        &&& self.map@.dom().finite()
        &&& self@.dom() == self.map@.dom()
        &&& forall|code: u64| #[trigger] self.map@.contains_key(code) ==> self.map@[code].len() > 0
        &&& self.count == count(self@)
        &&& self.count <= COUNT_LIMIT
    }

    /// An empty store, with room set aside for about `cap` entries.
    pub(crate) fn with_capacity(cap: usize) -> (out: Store)
        ensures
            out.wf(),
            out@ == Map::<u64, Seq<EntryView>>::empty(),
    {
        let room = if cap <= CAPACITY_LIMIT {
            cap
        } else {
            CAPACITY_LIMIT
        };
        let map = fnv_with_capacity(room);
        let out = Store { map, count: 0 };
        proof {
            assert(out.map@.dom() =~= Set::<u64>::empty());
            lemma_contents_dom(out.map);
            assert(out@ =~= Map::<u64, Seq<EntryView>>::empty());
        }
        out
    }

    /// Gives `key` the value `value`.
    pub(crate) fn put<H: Fn(&LispObject, &Vec<LispObject>) -> LispObject>(
        &mut self,
        key: HashableLispObject,
        value: HashableLispObject,
        host: &H,
    )
        requires
            callable(host),
            old(self).wf(),
            old(self).count < COUNT_LIMIT,
            value.func@ == key.func@,
        ensures
            final(self).wf(),
            final(self).count <= old(self).count + 1,
            wrapped(old(self)@, key.func@) ==> wrapped(final(self)@, key.func@),
            forall|m: HostModel|
                key.func@.is_builtin() || agrees(host, m) ==> final(self)@ == #[trigger] put(
                    old(self)@,
                    key.func@,
                    m,
                    key.object@,
                    value.object@,
                ),
    {
        let ghost before = self@;
        let ghost t = key.func@;
        proof {
            lemma_contents_dom(self.map);
        }
        let code = key.hash(host);
        let mut bucket = match fnv_remove(&mut self.map, code) {
            Some(b) => b,
            None => Vec::new(),
        };
        let ghost was = entries(bucket@);
        assert(was =~= bucket_at(before, code));
        let size = bucket.len();
        let ghost kv = key@;
        let ghost vv = value@;
        put_in(&mut bucket, key, value, host);
        if bucket.len() > size {
            self.count = self.count + 1;
        }
        let ghost now = entries(bucket@);
        let _ = fnv_insert(&mut self.map, code, bucket);
        proof {
            lemma_contents_dom(self.map);
            assert(self@ =~= before.insert(code, now));
            lemma_count_insert(before, code, now);
            if wrapped(before, t) {
                assert(before.contains_key(code) ==> crate::bucket::wrapped_with(was, t));
            }
            assert forall|m: HostModel| t.is_builtin() || agrees(host, m) implies self@
                == #[trigger] put(before, t, m, kv.object, vv.object) by {
                assert(code == t.hash_of(m, kv.object));
                assert(now == bucket_put(was, t, m, kv.object, vv.object));
            }
        }
    }

    /// The value of `key`, nil if the store holds none.
    pub(crate) fn get<H: Fn(&LispObject, &Vec<LispObject>) -> LispObject>(
        &self,
        key: &HashableLispObject,
        host: &H,
    ) -> (out: LispObject)
        requires
            callable(host),
            self.wf(),
        ensures
            forall|m: HostModel|
                key.func@.is_builtin() || agrees(host, m) ==> out@ == #[trigger] get(
                    self@,
                    key.func@,
                    m,
                    key.object@,
                ),
    {
        let code = key.hash(host);
        match fnv_get(&self.map, code) {
            Some(bucket) => {
                let at = find(bucket, key, host);
                if at < bucket.len() {
                    bucket[at].value.object.clone()
                } else {
                    LispObject::Nil
                }
            },
            None => {
                proof {
                    assert forall|m: HostModel|
                        key.func@.is_builtin() || agrees(host, m) implies Datum::Nil
                        == #[trigger] get(self@, key.func@, m, key.object@) by {
                        assert(code == key.func@.hash_of(m, key.object@));
                    }
                }
                LispObject::Nil
            },
        }
    }

    /// Takes the entry of `key` out of the store, if there is one.
    pub(crate) fn remove<H: Fn(&LispObject, &Vec<LispObject>) -> LispObject>(
        &mut self,
        key: &HashableLispObject,
        host: &H,
    )
        requires
            callable(host),
            old(self).wf(),
        ensures
            final(self).wf(),
            final(self).count <= old(self).count,
            forall|t: Test| wrapped(old(self)@, t) ==> wrapped(final(self)@, t),
            forall|m: HostModel|
                key.func@.is_builtin() || agrees(host, m) ==> final(self)@ == #[trigger] remove(
                    old(self)@,
                    key.func@,
                    m,
                    key.object@,
                ),
    {
        let ghost before = self@;
        let ghost t = key.func@;
        let ghost kd = key.object@;
        proof {
            lemma_contents_dom(self.map);
        }
        let code = key.hash(host);
        match fnv_remove(&mut self.map, code) {
            Some(b) => {
                let mut bucket = b;
                let ghost was = entries(bucket@);
                let at = find(&bucket, key, host);
                proof {
                    lemma_count_insert(before, code, was);
                    assert(before.insert(code, was) =~= before);
                }
                if at < bucket.len() {
                    let _ = bucket.remove(at);
                    self.count = self.count - 1;
                }
                let ghost now = entries(bucket@);
                assert(now =~= (if at < was.len() {
                    was.remove(at as int)
                } else {
                    was
                }));
                if bucket.len() > 0 {
                    let _ = fnv_insert(&mut self.map, code, bucket);
                }
                proof {
                    lemma_contents_dom(self.map);
                    assert(self@ =~= with_bucket(before, code, now));
                    lemma_count_insert(before, code, now);
                    assert forall|t2: Test| wrapped(before, t2) implies wrapped(self@, t2) by {
                        assert(before.contains_key(code));
                        assert(crate::bucket::wrapped_with(was, t2));
                        assert(crate::bucket::wrapped_with(now, t2));
                    }
                    assert forall|m: HostModel| t.is_builtin() || agrees(host, m) implies self@
                        == #[trigger] remove(before, t, m, kd) by {
                        assert(code == t.hash_of(m, kd));
                        assert(at == position(was, t, m, kd));
                        assert(now =~= bucket_remove(was, t, m, kd));
                    }
                }
            },
            None => {
                proof {
                    lemma_contents_dom(self.map);
                    assert(self@ =~= before);
                    assert forall|m: HostModel| t.is_builtin() || agrees(host, m) implies self@
                        == #[trigger] remove(before, t, m, kd) by {
                        assert(code == t.hash_of(m, kd));
                    }
                }
            },
        }
    }

    /// Takes every entry out of the store.
    pub(crate) fn clear(&mut self)
        ensures
            final(self).wf(),
            final(self)@ == Map::<u64, Seq<EntryView>>::empty(),
    {
        self.map.clear();
        self.count = 0;
        proof {
            lemma_contents_dom(self.map);
            assert(self@ =~= Map::<u64, Seq<EntryView>>::empty());
        }
    }

    /// The number of entries.
    pub(crate) fn len(&self) -> (out: u64)
        requires
            self.wf(),
        ensures
            out == count(self@),
            out <= COUNT_LIMIT,
    {
        self.count
    }

    /// Sets room aside for about `additional` more entries.
    pub(crate) fn reserve(&mut self, additional: u64)
        requires
            old(self).wf(),
        ensures
            final(self).wf(),
            final(self)@ == old(self)@,
    {
        let room: usize = if additional <= 65536 {
            additional as usize
        } else {
            CAPACITY_LIMIT
        };
        self.map.reserve(room);
    }

    /// The hash codes in use, each once, in no particular order.
    pub(crate) fn codes(&self) -> (out: Vec<u64>)
        requires
            self.wf(),
        ensures
            out@.no_duplicates(),
            out@.to_set() == self@.dom(),
    {
        fnv_keys(&self.map)
    }

    /// The bucket of a hash code in use.
    pub(crate) fn bucket(&self, code: u64) -> (out: &Vec<Entry>)
        requires
            self.wf(),
            self@.contains_key(code),
        ensures
            entries(out@) == self@[code],
            out.len() > 0,
    {
        match fnv_get(&self.map, code) {
            Some(bucket) => bucket,
            None => {
                proof {
                    assert(self.map@.dom().contains(code));
                }
                unreached()
            },
        }
    }

    /// Makes `bucket` the bucket of `code`; an empty bucket takes the code
    /// out of use.
    pub(crate) fn set_bucket(&mut self, code: u64, bucket: Vec<Entry>)
        requires
            old(self).wf(),
            old(self).count - bucket_at(old(self)@, code).len() + bucket.len() <= COUNT_LIMIT,
        ensures
            final(self).wf(),
            final(self)@ == with_bucket(old(self)@, code, entries(bucket@)),
            final(self).count == old(self).count - bucket_at(old(self)@, code).len()
                + bucket.len(),
    {
        let ghost before = self@;
        let ghost now = entries(bucket@);
        let was: usize = match fnv_remove(&mut self.map, code) {
            Some(b) => b.len(),
            None => 0,
        };
        proof {
            lemma_count_insert(before, code, now);
            assert(was == bucket_at(before, code).len());
        }
        let size = bucket.len();
        self.count = self.count - was as u64 + size as u64;
        if size > 0 {
            let _ = fnv_insert(&mut self.map, code, bucket);
        }
        proof {
            lemma_contents_dom(self.map);
            assert(self@ =~= with_bucket(before, code, now));
            if size == 0 {
                assert(before.remove(code).remove(code) =~= before.remove(code));
                lemma_count_insert(before.remove(code), code, now);
            }
        }
    }

    /// A store of its own that holds the same entries.
    pub(crate) fn duplicate(&self) -> (out: Store)
        requires
            self.wf(),
        ensures
            out.wf(),
            out@ == self@,
    {
        Store { map: self.map.clone(), count: self.count }
    }
}

} // verus!
