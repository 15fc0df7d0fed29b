//! The table itself: how one is made and configured, and the operations on
//! its entries.

use crate::object::{
    Datum, LispObject, QCPURECOPY, QCSIZE, QCTEST, QCWEAKNESS, QEQ, QEQL, QEQUAL, QKEY,
    QKEY_AND_VALUE, QT, QVALUE,
};
use crate::registry::{registered, DefinitionView, HashTestRegistry};
use crate::store::{
    count, get, lemma_put_keeps_order, lemma_remove_keeps_order, orderly, put, remove, silent,
    wrapped, Buckets, Store, COUNT_LIMIT,
};
use crate::strategy::{
    agrees, callable, data, HashFunction, HashableLispObject, HostModel, Test,
};
use vstd::prelude::*;

verus! {

/// Where a table stands in a collection cycle.
#[derive(Clone, Copy, Debug, PartialEq, Eq, Structural)]
pub enum MarkState {
    /// Not reached in this cycle.
    Unmarked,
    /// Reached, and everything it holds marked with it.
    StronglyMarked,
    /// Reached, but weak: what it holds is decided once marking is over.
    PendingWeak,
    /// Weak, and swept: only entries that are still alive are left.
    Resolved,
}

/// The frame that every vector-like heap object starts with.
#[derive(Clone, Copy, Debug, PartialEq, Eq, Structural)]
pub struct LispVectorlikeHeader {
    /// The tag that tells the runtime what kind of object follows; 0 while
    /// the object is untagged.
    pub tag: u64,
    /// The mark of the collector.
    pub mark: MarkState,
}

impl LispVectorlikeHeader {
    /// The header of a new object: untagged and unmarked.
    pub fn new() -> (out: LispVectorlikeHeader)
        ensures
            out == (LispVectorlikeHeader { tag: 0, mark: MarkState::Unmarked }),
    {
        LispVectorlikeHeader { tag: 0, mark: MarkState::Unmarked }
    }
}

/// How a table holds on to its entries.
#[derive(Clone, Copy, Debug, PartialEq, Eq, Structural)]
pub enum Weakness {
    /// Strongly: every key and value lives as long as the table.
    Strong,
    /// An entry lives as long as its key does.
    Key,
    /// An entry lives as long as its value does.
    Value,
    /// An entry lives as long as both its key and its value do.
    KeyAndValue,
}

/// The weakness that a marker object stands for: nil for none, the symbols
/// `key` and `value` for these, anything else for key-and-value.
pub open spec fn weakness_of(marker: Datum) -> Weakness {
    match marker {
        Datum::Nil => Weakness::Strong,
        Datum::Symbol(s) => if s == QKEY {
            Weakness::Key
        } else if s == QVALUE {
            Weakness::Value
        } else {
            Weakness::KeyAndValue
        },
        _ => Weakness::KeyAndValue,
    }
}

/// The capacity of a table made without saying one.
pub const DEFAULT_CAPACITY: usize = 65;

/// IEEE 754 bit pattern of 0.5.
pub const REHASH_SIZE_BITS: u64 = 0x3fe0_0000_0000_0000;

/// IEEE 754 bit pattern of 0.8125.
pub const REHASH_THRESHOLD_BITS: u64 = 0x3fea_0000_0000_0000;

/// A hash table.
pub struct LispHashTable {
    pub(crate) header: LispVectorlikeHeader,
    pub(crate) weak: LispObject,
    pub(crate) is_pure: bool,
    pub(crate) func: HashFunction,
    pub(crate) map: Store,
}

/// The mathematical value of a table.
pub struct TableView {
    pub header: LispVectorlikeHeader,
    /// The marker object that says how the table holds on to its entries.
    pub weak: Datum,
    /// Whether the table belongs to permanent storage.
    pub is_pure: bool,
    /// The test.
    pub func: Test,
    /// The entries, by hash code.
    pub entries: Buckets,
}

impl TableView {
    /// The table with other entries.
    pub open spec fn with_entries(self, entries: Buckets) -> TableView {
        TableView { entries, ..self }
    }

    /// The table after `k` is given the value `v`.
    pub open spec fn put(self, m: HostModel, k: Datum, v: Datum) -> TableView {
        self.with_entries(put(self.entries, self.func, m, k, v))
    }

    /// The value of `k`; nil if the table holds none.
    pub open spec fn get(self, m: HostModel, k: Datum) -> Datum {
        get(self.entries, self.func, m, k)
    }

    /// The table without the entry of `k`.
    pub open spec fn remove(self, m: HostModel, k: Datum) -> TableView {
        self.with_entries(remove(self.entries, self.func, m, k))
    }

    /// The table without any entry.
    pub open spec fn cleared(self) -> TableView {
        self.with_entries(Map::empty())
    }

    /// The number of entries.
    pub open spec fn count(self) -> nat {
        count(self.entries)
    }

    /// How the table holds on to its entries.
    pub open spec fn weakness(self) -> Weakness {
        weakness_of(self.weak)
    }

    /// The object that names the test: one of the symbols `eq`, `eql` and
    /// `equal`, or the name of the user-defined test.
    pub open spec fn test_name(self) -> Datum {
        match self.func {
            Test::Eq => Datum::Symbol(QEQ),
            Test::Eql => Datum::Symbol(QEQL),
            Test::Equal => Datum::Symbol(QEQUAL),
            Test::UserFunc(name, _, _) => name,
        }
    }

    /// Every key and value is wrapped with the test of the table, and under
    /// a built-in test every key lies in the bucket of its hash code and no
    /// bucket holds a key twice.
    pub open spec fn well_kept(self) -> bool {
        &&& self.entries.dom().finite()
        &&& wrapped(self.entries, self.func)
        &&& self.func.is_builtin() ==> orderly(self.entries, self.func, silent())
    }
}

impl View for LispHashTable {
    type V = TableView;

    open(crate) spec fn view(&self) -> TableView {
        TableView {
            header: self.header,
            weak: self.weak@,
            is_pure: self.is_pure,
            func: self.func@,
            entries: self.map@,
        }
    }
}

impl LispHashTable {
    /// The table is in order: its store counts its entries, and what it
    /// holds is well kept.
    pub open(crate) spec fn wf(&self) -> bool {
        &&& self.map.wf()
        &&& self@.well_kept()
    }

    /// A table in order is well kept and has no more entries than a fixnum
    /// can count.
    pub proof fn lemma_in_order(&self)
        requires
            self.wf(),
        ensures
            self@.well_kept(),
            self@.count() <= COUNT_LIMIT,
    {
    }

    /// An empty table with the identity test, strong and not pure.
    pub fn new() -> (out: LispHashTable)
        ensures
            out.wf(),
            out@ == LispHashTable::fresh(),
    {
        Self::with_capacity(DEFAULT_CAPACITY)
    }

    /// What a new table is.
    pub open spec fn fresh() -> TableView {
        TableView {
            header: LispVectorlikeHeader { tag: 0, mark: MarkState::Unmarked },
            weak: Datum::Nil,
            is_pure: false,
            func: Test::Eq,
            entries: Map::empty(),
        }
    }

    /// The frame of the table.
    pub fn header(&self) -> (out: LispVectorlikeHeader)
        ensures
            out == self@.header,
    {
        self.header
    }

    /// Whether the table belongs to permanent storage.
    pub fn is_pure(&self) -> (out: bool)
        ensures
            out == self@.is_pure,
    {
        self.is_pure
    }

    /// The marker object that says how the table holds on to its entries.
    pub fn get_weak(&self) -> (out: LispObject)
        ensures
            out@ == self@.weak,
    {
        self.weak.clone()
    }

    /// How the table holds on to its entries.
    pub fn weakness(&self) -> (out: Weakness)
        ensures
            out == self@.weakness(),
    {
        match &self.weak {
            LispObject::Nil => Weakness::Strong,
            LispObject::Symbol(s) => {
                if *s == QKEY {
                    Weakness::Key
                } else if *s == QVALUE {
                    Weakness::Value
                } else {
                    Weakness::KeyAndValue
                }
            },
            _ => Weakness::KeyAndValue,
        }
    }

    /// An empty table like [`LispHashTable::new`], with room set aside for
    /// about `cap` entries.
    pub fn with_capacity(cap: usize) -> (out: LispHashTable)
        ensures
            out.wf(),
            out@ == LispHashTable::fresh(),
    {
        LispHashTable {
            header: LispVectorlikeHeader::new(),
            weak: LispObject::constant_nil(),
            is_pure: false,
            func: HashFunction::Eq,
            map: Store::with_capacity(cap),
        }
    }
}

/// Why a table could not be made.
#[derive(Clone, Copy, Debug, PartialEq, Eq, Structural)]
pub enum HashTableError {
    /// The list of options has an odd length: a keyword stands without its
    /// value.
    MalformedArguments,
    /// The test is none of the built-in ones, and no test is registered
    /// under its name.
    UnknownTest,
    /// What is registered under the name of the test is not a list that
    /// starts with a comparison function and a hash function.
    MalformedTestDefinition,
    /// The size is not a natural number.
    InvalidSize,
}

/// What the options of a table decide.
pub struct Config {
    pub func: Test,
    pub weak: Datum,
    pub is_pure: bool,
}

/// The test that the value of `:test` selects.
pub open spec fn select_test(value: Datum, defs: Seq<DefinitionView>) -> Result<
    Test,
    HashTableError,
> {
    if value.identical(Datum::Symbol(QEQ)) {
        Ok(Test::Eq)
    } else if value.identical(Datum::Symbol(QEQL)) {
        Ok(Test::Eql)
    } else if value.identical(Datum::Symbol(QEQUAL)) {
        Ok(Test::Equal)
    } else {
        match registered(defs, value) {
            None => Err(HashTableError::UnknownTest),
            Some(list) => if list is Cons && list.rest() is Cons {
                Ok(Test::UserFunc(value, list.first(), list.rest().first()))
            } else {
                Err(HashTableError::MalformedTestDefinition)
            },
        }
    }
}

/// The marker object that the value of `:weakness` leaves in the table: `t`
/// becomes `key-and-value`, anything else is kept as it is.
pub open spec fn weak_marker(value: Datum) -> Datum {
    if value.identical(Datum::Symbol(QT)) {
        Datum::Symbol(QKEY_AND_VALUE)
    } else {
        value
    }
}

/// What one option, a keyword and its value, does to a configuration. A
/// keyword that is none of `:test`, `:purecopy`, `:size` and `:weakness`
/// does nothing.
pub open spec fn apply_option(cfg: Config, key: Datum, value: Datum, defs: Seq<DefinitionView>) -> Result<
    Config,
    HashTableError,
> {
    if key.identical(Datum::Symbol(QCTEST)) {
        match select_test(value, defs) {
            Ok(func) => Ok(Config { func, ..cfg }),
            Err(e) => Err(e),
        }
    } else if key.identical(Datum::Symbol(QCPURECOPY)) {
        Ok(Config { is_pure: !(value is Nil), ..cfg })
    } else if key.identical(Datum::Symbol(QCSIZE)) {
        match value {
            Datum::Int(n) if n >= 0 => Ok(cfg),
            _ => Err(HashTableError::InvalidSize),
        }
    } else if key.identical(Datum::Symbol(QCWEAKNESS)) {
        Ok(Config { weak: weak_marker(value), ..cfg })
    } else {
        Ok(cfg)
    }
}

/// What a list of options does to a configuration: the options apply in
/// order, two objects at a time, and the first that fails stops the rest. A
/// keyword left without a value is an error of its own.
pub open spec fn configure(cfg: Config, args: Seq<Datum>, defs: Seq<DefinitionView>) -> Result<
    Config,
    HashTableError,
>
    decreases args.len(),
{
    if args.len() == 0 {
        Ok(cfg)
    } else if args.len() == 1 {
        Err(HashTableError::MalformedArguments)
    } else {
        match apply_option(cfg, args[0], args[1], defs) {
            Ok(next) => configure(next, args.skip(2), defs),
            Err(e) => Err(e),
        }
    }
}

/// The configuration of a table before any option applies.
pub open spec fn default_config() -> Config {
    Config { func: Test::Eq, weak: Datum::Nil, is_pure: false }
}

/// The new table that a configuration describes.
pub open spec fn configured(cfg: Config) -> TableView {
    TableView {
        header: LispVectorlikeHeader { tag: 0, mark: MarkState::Unmarked },
        weak: cfg.weak,
        is_pure: cfg.is_pure,
        func: cfg.func,
        entries: Map::empty(),
    }
}

fn is_symbol(o: &LispObject, number: u64) -> (out: bool)
    ensures
        out == o@.identical(Datum::Symbol(number)),
{
    match o {
        LispObject::Symbol(s) => *s == number,
        _ => false,
    }
}

fn test_for(value: &LispObject, registry: &HashTestRegistry) -> (out: Result<
    HashFunction,
    HashTableError,
>)
    ensures
        match out {
            Ok(func) => select_test(value@, registry@) == Ok::<Test, HashTableError>(func@),
            Err(e) => select_test(value@, registry@) == Err::<Test, HashTableError>(e),
        },
{
    if is_symbol(value, QEQ) {
        Ok(HashFunction::Eq)
    } else if is_symbol(value, QEQL) {
        Ok(HashFunction::Eql)
    } else if is_symbol(value, QEQUAL) {
        Ok(HashFunction::Equal)
    } else {
        match registry.lookup(value) {
            None => Err(HashTableError::UnknownTest),
            Some(list) => {
                let rest = list.cdr();
                if list.is_cons() && rest.is_cons() {
                    Ok(HashFunction::UserFunc(value.clone(), list.car(), rest.car()))
                } else {
                    Err(HashTableError::MalformedTestDefinition)
                }
            },
        }
    }
}

/// Makes a table from a list of options: keywords, each followed by its
/// value. `:test` selects the test, by the symbols `eq`, `eql` and `equal` or
/// by a name in `registry`; `:size` says how many entries to set room aside
/// for; `:weakness` gives the marker object of the table, and `:purecopy`
/// says whether it is meant for permanent storage.
pub fn make_hash_map(args: &[LispObject], registry: &HashTestRegistry) -> (out: Result<
    LispHashTable,
    HashTableError,
>)
    ensures
        match configure(default_config(), data(args@), registry@) {
            Ok(cfg) => out matches Ok(table) && table.wf() && table@ == configured(cfg),
            Err(e) => out matches Err(err) && err == e,
        },
{
    let mut table = LispHashTable::new();
    let len = args.len();
    let mut i: usize = 0;
    proof {
        assert(data(args@).skip(0) =~= data(args@));
    }
    while i < len
        invariant
            len == args.len(),
            0 <= i <= len,
            table.wf(),
            table@ == configured(
                Config { func: table@.func, weak: table@.weak, is_pure: table@.is_pure },
            ),
            configure(default_config(), data(args@), registry@) == configure(
                Config { func: table@.func, weak: table@.weak, is_pure: table@.is_pure },
                data(args@).skip(i as int),
                registry@,
            ),
        decreases len - i,
    {
        let ghost rest = data(args@).skip(i as int);
        let ghost cfg = Config { func: table@.func, weak: table@.weak, is_pure: table@.is_pure };
        if len - i < 2 {
            return Err(HashTableError::MalformedArguments);
        }
        let key = &args[i];
        let value = &args[i + 1];
        proof {
            assert(rest[0] == key@);
            assert(rest[1] == value@);
            assert(rest.skip(2) =~= data(args@).skip(i + 2));
        }
        if is_symbol(key, QCTEST) {
            match test_for(value, registry) {
                Ok(func) => {
                    table.func = func;
                },
                Err(e) => {
                    return Err(e);
                },
            }
        } else if is_symbol(key, QCPURECOPY) {
            table.is_pure = value.is_not_nil();
        } else if is_symbol(key, QCSIZE) {
            match value.as_natnum() {
                Some(size) => {
                    table.map.reserve(size);
                },
                None => {
                    return Err(HashTableError::InvalidSize);
                },
            }
        } else if is_symbol(key, QCWEAKNESS) {
            if is_symbol(value, QT) {
                table.weak = LispObject::Symbol(QKEY_AND_VALUE);
            } else {
                table.weak = value.clone();
            }
        }
        i = i + 2;
    }
    proof {
        assert(data(args@).skip(i as int).len() == 0);
    }
    Ok(table)
}

/// Gives `k` the value `v` in the table and returns `v`. A key that the
/// table already holds keeps its entry, which takes the new value.
pub fn map_put<H: Fn(&LispObject, &Vec<LispObject>) -> LispObject>(
    map: &mut LispHashTable,
    k: LispObject,
    v: LispObject,
    host: &H,
) -> (out: LispObject)
    requires
        callable(host),
        old(map).wf(),
        old(map)@.count() < COUNT_LIMIT,
    ensures
        final(map).wf(),
        out@ == v@,
        final(map)@.with_entries(old(map)@.entries) == old(map)@,
        final(map)@.count() <= old(map)@.count() + 1,
        forall|m: HostModel|
            old(map)@.func.is_builtin() || agrees(host, m) ==> final(map)@ == #[trigger] old(
                map,
            )@.put(m, k@, v@),
{
    let out = v.clone();
    let key = HashableLispObject::with_hashfunc_and_object(k, map.func.clone());
    let value = HashableLispObject::with_hashfunc_and_object(v, map.func.clone());
    let ghost before = map@;
    map.map.put(key, value, host);
    proof {
        lemma_put_keeps_order(before.entries, before.func, silent(), k@, v@);
    }
    out
}

/// The value of `k` in the table; nil if the table holds none.
pub fn map_get<H: Fn(&LispObject, &Vec<LispObject>) -> LispObject>(
    map: &LispHashTable,
    k: LispObject,
    host: &H,
) -> (out: LispObject)
    requires
        callable(host),
        map.wf(),
    ensures
        forall|m: HostModel|
            map@.func.is_builtin() || agrees(host, m) ==> out@ == #[trigger] map@.get(m, k@),
{
    let key = HashableLispObject::with_hashfunc_and_object(k, map.func.clone());
    map.map.get(&key, host)
}

/// Takes the entry of `k` out of the table. Nothing happens if the table
/// holds none.
pub fn map_rm<H: Fn(&LispObject, &Vec<LispObject>) -> LispObject>(
    map: &mut LispHashTable,
    k: LispObject,
    host: &H,
)
    requires
        callable(host),
        old(map).wf(),
    ensures
        final(map).wf(),
        final(map)@.with_entries(old(map)@.entries) == old(map)@,
        final(map)@.count() <= old(map)@.count(),
        forall|m: HostModel|
            old(map)@.func.is_builtin() || agrees(host, m) ==> final(map)@ == #[trigger] old(
                map,
            )@.remove(m, k@),
{
    let key = HashableLispObject::with_hashfunc_and_object(k, map.func.clone());
    let ghost before = map@;
    map.map.remove(&key, host);
    proof {
        lemma_remove_keeps_order(before.entries, before.func, silent(), k@);
    }
}

/// Takes every entry out of the table. The test, the weakness and the
/// purity stay.
pub fn map_clear(map: &mut LispHashTable)
    requires
        old(map).wf(),
    ensures
        final(map).wf(),
        final(map)@ == old(map)@.cleared(),
        final(map)@.count() == 0,
{
    map.map.clear();
}

/// The number of entries in the table.
pub fn map_count(map: &LispHashTable) -> (out: LispObject)
    requires
        map.wf(),
    ensures
        map@.count() <= i64::MAX,
        out@ == Datum::Int(map@.count() as i64),
{
    LispObject::Int(map.map.len() as i64)
}

/// A table of its own with the same test, weakness, purity and entries.
pub fn map_copy(map: &LispHashTable) -> (out: LispHashTable)
    requires
        map.wf(),
    ensures
        out.wf(),
        out@ == map@,
{
    LispHashTable {
        header: map.header,
        weak: map.weak.clone(),
        is_pure: map.is_pure,
        func: map.func.clone(),
        map: map.map.duplicate(),
    }
}

/// The object that names the test of the table.
pub fn map_test(map: &LispHashTable) -> (out: LispObject)
    ensures
        out@ == map@.test_name(),
{
    match &map.func {
        HashFunction::Eq => LispObject::Symbol(QEQ),
        HashFunction::Eql => LispObject::Symbol(QEQL),
        HashFunction::Equal => LispObject::Symbol(QEQUAL),
        HashFunction::UserFunc(name, _, _) => name.clone(),
    }
}

/// The rehash size of every table, 0.5, as its IEEE 754 bit pattern. Tables
/// grow as their store sees fit; the number is kept for those who ask.
pub fn map_rehash_size(_map: &LispHashTable) -> (out: u64)
    ensures
        out == REHASH_SIZE_BITS,
{
    REHASH_SIZE_BITS
}

/// The rehash threshold of every table, 0.8125, as its IEEE 754 bit
/// pattern.
pub fn map_rehash_threshold(_map: &LispHashTable) -> (out: u64)
    ensures
        out == REHASH_THRESHOLD_BITS,
{
    REHASH_THRESHOLD_BITS
}

} // verus!
