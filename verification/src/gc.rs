//! What a table does for the garbage collector: it marks what it keeps
//! alive, and, where it is weak, gives up the entries that have died.

use crate::bucket::{entries, Entry, EntryView};
use crate::hashtable::{LispHashTable, LispVectorlikeHeader, MarkState, TableView, Weakness};
use crate::object::{Cell, Datum, LispObject};
use crate::store::{bucket_at, orderly, silent, wrapped, Buckets, Store};
use crate::strategy::{HashFunction, Test};
use std::collections::HashSet;
use vstd::prelude::*;

verus! {

broadcast use vstd::std_specs::hash::group_hash_axioms;

/// The address of an object that the collector owns: a boxed object
/// outside permanent storage.
pub open spec fn heap_cell(d: Datum) -> Option<u64> {
    match d.cell() {
        Some(c) => if c.pure {
            None
        } else {
            Some(c.addr)
        },
        None => None,
    }
}

/// The address of a cell, if the collector owns it.
pub open spec fn own_cell(c: Cell) -> Set<u64> {
    if c.pure {
        Set::empty()
    } else {
        set![c.addr]
    }
}

/// The addresses that the collector owns of an object and of all its parts.
pub open spec fn cells(d: Datum) -> Set<u64>
    decreases d,
{
    match d {
        Datum::Float { cell, .. } => own_cell(cell),
        Datum::Str { cell, .. } => own_cell(cell),
        Datum::Cons { cell, car, cdr } => own_cell(cell).union(cells(*car)).union(cells(*cdr)),
        _ => Set::empty(),
    }
}

/// The marked addresses after `d` is marked, and with it its parts.
pub open spec fn marked_with(marked: Set<u64>, d: Datum) -> Set<u64> {
    marked.union(cells(d))
}

/// Whether `d` outlives the collection: it is marked, or the collector
/// does not own it.
pub open spec fn alive(marked: Set<u64>, d: Datum) -> bool {
    match heap_cell(d) {
        Some(a) => marked.contains(a),
        None => true,
    }
}

/// The addresses that a test keeps alive: those of the name and the two
/// functions of a user-defined test.
pub open spec fn test_cells(t: Test) -> Set<u64> {
    match t {
        Test::UserFunc(name, same, hash) => cells(name).union(cells(same)).union(cells(hash)),
        _ => Set::empty(),
    }
}

/// The addresses of the key and the value of an entry.
pub open spec fn entry_cells(e: EntryView) -> Set<u64> {
    cells(e.key.object).union(cells(e.value.object))
}

/// The addresses of the keys and values of a bucket.
pub open spec fn bucket_cells(b: Seq<EntryView>) -> Set<u64> {
    Set::new(|a: u64| exists|i: int| 0 <= i < b.len() && #[trigger] entry_cells(b[i]).contains(a))
}

/// The addresses of all keys and values of a store.
pub open spec fn held_cells(s: Buckets) -> Set<u64> {
    Set::new(
        |a: u64| exists|code: u64| s.contains_key(code) && #[trigger] bucket_cells(s[code]).contains(a),
    )
}

/// The addresses that a table marks when the collector reaches it: those of
/// its test, and, if it is strong, those of all its keys and values.
pub open spec fn reached(t: TableView) -> Set<u64> {
    if t.weakness() == Weakness::Strong {
        test_cells(t.func).union(held_cells(t.entries))
    } else {
        test_cells(t.func)
    }
}

/// Whether a table of weakness `w` keeps an entry, given what is marked.
pub open spec fn keeps(w: Weakness, marked: Set<u64>, e: EntryView) -> bool {
    match w {
        Weakness::Strong => true,
        Weakness::Key => alive(marked, e.key.object),
        Weakness::Value => alive(marked, e.value.object),
        Weakness::KeyAndValue => alive(marked, e.key.object) && alive(marked, e.value.object),
    }
}

/// The entries of a bucket that a table of weakness `w` keeps, in order.
pub open spec fn sifted(b: Seq<EntryView>, w: Weakness, marked: Set<u64>) -> Seq<EntryView> {
    b.filter(|e: EntryView| keeps(w, marked, e))
}

/// The store after a sweep: every bucket sifted, and no bucket left empty.
pub open spec fn swept(s: Buckets, w: Weakness, marked: Set<u64>) -> Buckets {
    Map::new(
        |code: u64| s.contains_key(code) && sifted(s[code], w, marked).len() > 0,
        |code: u64| sifted(s[code], w, marked),
    )
}

impl TableView {
    /// The table after the collector has reached it: strongly marked if it
    /// is strong, waiting for the sweep if it is weak.
    pub open spec fn marked(self) -> TableView {
        TableView {
            header: LispVectorlikeHeader {
                tag: self.header.tag,
                mark: if self.weakness() == Weakness::Strong {
                    MarkState::StronglyMarked
                } else {
                    MarkState::PendingWeak
                },
            },
            ..self
        }
    }

    /// The table after the sweep, given what is marked: a table that waits
    /// for the sweep keeps the entries that its weakness keeps and is
    /// resolved; any other table is left as it is.
    pub open spec fn swept(self, marked: Set<u64>) -> TableView {
        if self.header.mark == MarkState::PendingWeak {
            TableView {
                header: LispVectorlikeHeader { tag: self.header.tag, mark: MarkState::Resolved },
                entries: swept(self.entries, self.weakness(), marked),
                ..self
            }
        } else {
            self
        }
    }

    /// The table with the mark of the collector taken off.
    pub open spec fn unmarked(self) -> TableView {
        TableView {
            header: LispVectorlikeHeader { tag: self.header.tag, mark: MarkState::Unmarked },
            ..self
        }
    }
}

/// The marks of the collector: the addresses of the objects it has reached.
pub struct Marks {
    pub(crate) cells: HashSet<u64>,
}

impl View for Marks {
    type V = Set<u64>;

    open(crate) spec fn view(&self) -> Set<u64> {
        self.cells@
    }
}

impl Marks {
    /// No object is marked.
    pub fn new() -> (out: Marks)
        ensures
            out@ == Set::<u64>::empty(),
    {
        Marks { cells: HashSet::new() }
    }

    fn mark_cell(&mut self, cell: &Cell)
        ensures
            final(self)@ == old(self)@.union(own_cell(*cell)),
    {
        if !cell.pure {
            let _ = self.cells.insert(cell.addr);
        }
        proof {
            assert(self@ =~= old(self)@.union(own_cell(*cell)));
        }
    }

    /// Marks `o` and all its parts, as far as the collector owns them.
    pub fn mark_object(&mut self, o: &LispObject)
        ensures
            final(self)@ == marked_with(old(self)@, o@),
        decreases o,
    {
        match o {
            LispObject::Float { cell, .. } => {
                self.mark_cell(cell);
            },
            LispObject::Str { cell, .. } => {
                self.mark_cell(cell);
            },
            LispObject::Cons { cell, car, cdr } => {
                self.mark_cell(cell);
                self.mark_object(&**car);
                self.mark_object(&**cdr);
            },
            _ => {},
        }
        proof {
            assert(self@ =~= marked_with(old(self)@, o@));
        }
    }

    /// Whether `o` outlives the collection.
    pub fn survives(&self, o: &LispObject) -> (out: bool)
        ensures
            out == alive(self@, o@),
    {
        match o {
            LispObject::Float { cell, .. } => cell.pure || self.cells.contains(&cell.addr),
            LispObject::Str { cell, .. } => cell.pure || self.cells.contains(&cell.addr),
            LispObject::Cons { cell, .. } => cell.pure || self.cells.contains(&cell.addr),
            _ => true,
        }
    }
}

/// The addresses of the keys and values of the buckets of the first `n`
/// codes of a list.
pub open spec fn cells_upto(s: Buckets, codes: Seq<u64>, n: int) -> Set<u64> {
    Set::new(
        |a: u64|
            exists|k: int| 0 <= k < n && #[trigger] bucket_cells(bucket_at(s, codes[k])).contains(a),
    )
}

fn mark_bucket(bucket: &Vec<Entry>, marks: &mut Marks)
    ensures
        final(marks)@ == old(marks)@.union(bucket_cells(entries(bucket@))),
{
    let ghost base = marks@;
    let ghost b = entries(bucket@);
    let mut j: usize = 0;
    proof {
        assert(marks@ =~= base.union(bucket_cells(b.take(0))));
    }
    while j < bucket.len()
        invariant
            0 <= j <= bucket.len(),
            b == entries(bucket@),
            marks@ == base.union(bucket_cells(b.take(j as int))),
        decreases bucket.len() - j,
    {
        let ghost before = marks@;
        marks.mark_object(&bucket[j].key.object);
        marks.mark_object(&bucket[j].value.object);
        proof {
            let e = b[j as int];
            assert(marks@ =~= before.union(entry_cells(e)));
            let small = b.take(j as int);
            let large = b.take(j + 1);
            assert forall|a: u64| bucket_cells(large).contains(a) <==> bucket_cells(small).contains(a)
                || entry_cells(e).contains(a) by {
                if bucket_cells(large).contains(a) {
                    let i = choose|i: int|
                        0 <= i < large.len() && #[trigger] entry_cells(large[i]).contains(a);
                    if i < j {
                        assert(small[i] == large[i]);
                    }
                }
                if bucket_cells(small).contains(a) {
                    let i = choose|i: int|
                        0 <= i < small.len() && #[trigger] entry_cells(small[i]).contains(a);
                    assert(large[i] == small[i]);
                }
                if entry_cells(e).contains(a) {
                    assert(large[j as int] == e);
                }
            }
            assert(marks@ =~= base.union(bucket_cells(large)));
        }
        j = j + 1;
    }
    proof {
        assert(b.take(j as int) =~= b);
    }
}

/// The part of a table in a collection: called when the collector reaches
/// the table. The frame of the table is marked, and so are the name and the
/// functions of a user-defined test. A strong table marks every key and
/// value; a weak one marks none of them and waits for the sweep.
pub fn mark_hashtable(map: &mut LispHashTable, marks: &mut Marks)
    requires
        old(map).wf(),
    ensures
        final(map).wf(),
        final(map)@ == old(map)@.marked(),
        final(marks)@ == old(marks)@.union(reached(old(map)@)),
{
    let ghost base = marks@;
    let ghost s = map@.entries;
    if let HashFunction::UserFunc(name, same, hash) = &map.func {
        marks.mark_object(name);
        marks.mark_object(same);
        marks.mark_object(hash);
    }
    let ghost rooted = marks@;
    proof {
        assert(rooted =~= base.union(test_cells(map@.func)));
    }
    match map.weakness() {
        Weakness::Strong => {
            let codes = map.map.codes();
            let mut i: usize = 0;
            proof {
                assert(marks@ =~= rooted.union(cells_upto(s, codes@, 0)));
            }
            while i < codes.len()
                invariant
                    0 <= i <= codes.len(),
                    map.wf(),
                    s == map@.entries,
                    codes@.to_set() == s.dom(),
                    marks@ == rooted.union(cells_upto(s, codes@, i as int)),
                decreases codes.len() - i,
            {
                let code = codes[i];
                proof {
                    assert(codes@.to_set().contains(codes@[i as int]));
                }
                let ghost before = marks@;
                mark_bucket(map.map.bucket(code), marks);
                proof {
                    let cells = bucket_cells(s[code]);
                    assert forall|a: u64| cells_upto(s, codes@, i + 1).contains(a)
                        <==> cells_upto(s, codes@, i as int).contains(a) || cells.contains(a) by {
                        if cells_upto(s, codes@, i + 1).contains(a) {
                            let k = choose|k: int|
                                0 <= k < i + 1 && #[trigger] bucket_cells(
                                    bucket_at(s, codes@[k]),
                                ).contains(a);
                            if k < i {
                                assert(cells_upto(s, codes@, i as int).contains(a));
                            }
                        }
                        if cells_upto(s, codes@, i as int).contains(a) {
                            let k = choose|k: int|
                                0 <= k < i && #[trigger] bucket_cells(
                                    bucket_at(s, codes@[k]),
                                ).contains(a);
                            assert(0 <= k < i + 1);
                        }
                        if cells.contains(a) {
                            assert(bucket_cells(bucket_at(s, codes@[i as int])).contains(a));
                        }
                    }
                    assert(marks@ =~= rooted.union(cells_upto(s, codes@, i + 1)));
                }
                i = i + 1;
            }
            proof {
                assert forall|a: u64| cells_upto(s, codes@, i as int).contains(a) <==> held_cells(
                    s,
                ).contains(a) by {
                    if cells_upto(s, codes@, i as int).contains(a) {
                        let k = choose|k: int|
                            0 <= k < i && #[trigger] bucket_cells(bucket_at(s, codes@[k])).contains(a);
                        assert(codes@.to_set().contains(codes@[k]));
                        assert(bucket_cells(s[codes@[k]]).contains(a));
                    }
                    if held_cells(s).contains(a) {
                        let code = choose|code: u64|
                            s.contains_key(code) && #[trigger] bucket_cells(s[code]).contains(a);
                        assert(codes@.to_set().contains(code));
                        let k = choose|k: int| 0 <= k < codes@.len() && codes@[k] == code;
                        assert(bucket_cells(bucket_at(s, codes@[k])).contains(a));
                    }
                }
                assert(marks@ =~= base.union(reached(map@)));
            }
            map.header.mark = MarkState::StronglyMarked;
        },
        _ => {
            map.header.mark = MarkState::PendingWeak;
        },
    }
}

/// What is left of a bucket after sifting was in the bucket before, in the
/// same order: the bucket keeps its hash code, its wrapping, and stays
/// without repeated keys.
pub proof fn lemma_sifted_keeps_order(
    b: Seq<EntryView>,
    w: Weakness,
    marked: Set<u64>,
    t: Test,
    m: crate::strategy::HostModel,
)
    ensures
        sifted(b, w, marked).len() <= b.len(),
        forall|i: int|
            0 <= i < sifted(b, w, marked).len() ==> b.contains(#[trigger] sifted(b, w, marked)[i])
                && keeps(w, marked, sifted(b, w, marked)[i]),
        forall|i: int|
            0 <= i < b.len() && keeps(w, marked, b[i]) ==> sifted(b, w, marked).contains(
                #[trigger] b[i],
            ),
        crate::bucket::wrapped_with(b, t) ==> crate::bucket::wrapped_with(sifted(b, w, marked), t),
        forall|code: u64|
            crate::bucket::hashed_to(b, t, m, code) ==> crate::bucket::hashed_to(
                sifted(b, w, marked),
                t,
                m,
                code,
            ),
        crate::bucket::distinct(b, t, m) ==> crate::bucket::distinct(sifted(b, w, marked), t, m),
    decreases b.len(),
{
    let keep = |e: EntryView| keeps(w, marked, e);
    let out = sifted(b, w, marked);
    reveal(Seq::filter);
    if b.len() > 0 {
        let front = b.drop_last();
        let sub = sifted(front, w, marked);
        lemma_sifted_keeps_order(front, w, marked, t, m);
        assert(out == if keep(b.last()) {
            sub.push(b.last())
        } else {
            sub
        });
        assert forall|i: int| 0 <= i < out.len() implies b.contains(#[trigger] out[i]) && keeps(
            w,
            marked,
            out[i],
        ) by {
            if i < sub.len() {
                assert(front.contains(sub[i]));
                let i0 = choose|i0: int| 0 <= i0 < front.len() && front[i0] == sub[i];
                assert(b[i0] == out[i]);
            } else {
                assert(b[b.len() - 1] == out[i]);
            }
        }
        assert forall|i: int| 0 <= i < b.len() && keeps(w, marked, b[i]) implies out.contains(
            #[trigger] b[i],
        ) by {
            if i < front.len() {
                assert(front[i] == b[i]);
                assert(sub.contains(front[i]));
                let i1 = choose|i1: int| 0 <= i1 < sub.len() && sub[i1] == front[i];
                assert(out[i1] == b[i]);
            } else {
                assert(out[out.len() - 1] == b[i]);
            }
        }
        if crate::bucket::wrapped_with(b, t) {
            assert(crate::bucket::wrapped_with(front, t));
        }
        assert forall|code: u64| crate::bucket::hashed_to(b, t, m, code) implies crate::bucket::hashed_to(
            out,
            t,
            m,
            code,
        ) by {
            assert(crate::bucket::hashed_to(front, t, m, code));
        }
        if crate::bucket::distinct(b, t, m) {
            assert(crate::bucket::distinct(front, t, m)) by {
                assert forall|i: int, j: int| 0 <= i < j < front.len() implies !t.same(
                    m,
                    #[trigger] front[j].key.object,
                    #[trigger] front[i].key.object,
                ) by {
                    assert(front[j] == b[j] && front[i] == b[i]);
                }
            }
            assert forall|i: int, j: int| 0 <= i < j < out.len() implies !t.same(
                m,
                #[trigger] out[j].key.object,
                #[trigger] out[i].key.object,
            ) by {
                if j == sub.len() {
                    assert(front.contains(sub[i]));
                    let i0 = choose|i0: int| 0 <= i0 < front.len() && front[i0] == sub[i];
                    assert(b[i0] == out[i]);
                    assert(b[b.len() - 1] == out[j]);
                }
            }
        }
    }
}

fn sift_bucket(bucket: &Vec<Entry>, w: Weakness, marks: &Marks) -> (kept: Vec<Entry>)
    ensures
        entries(kept@) == sifted(entries(bucket@), w, marks@),
{
    let ghost b = entries(bucket@);
    let mut kept: Vec<Entry> = Vec::new();
    let mut j: usize = 0;
    proof {
        reveal(Seq::filter);
        assert(b.take(0) =~= Seq::<EntryView>::empty());
        assert(entries(kept@) =~= sifted(b.take(0), w, marks@));
    }
    while j < bucket.len()
        invariant
            0 <= j <= bucket.len(),
            b == entries(bucket@),
            entries(kept@) == sifted(b.take(j as int), w, marks@),
        decreases bucket.len() - j,
    {
        let entry = &bucket[j];
        let stays = match w {
            Weakness::Strong => true,
            Weakness::Key => marks.survives(&entry.key.object),
            Weakness::Value => marks.survives(&entry.value.object),
            Weakness::KeyAndValue => marks.survives(&entry.key.object) && marks.survives(
                &entry.value.object,
            ),
        };
        let ghost before = entries(kept@);
        if stays {
            kept.push(entry.clone());
        }
        proof {
            reveal(Seq::filter);
            let large = b.take(j + 1);
            assert(large.drop_last() =~= b.take(j as int));
            assert(large.last() == b[j as int]);
            assert(entries(kept@) =~= if stays {
                before.push(b[j as int])
            } else {
                before
            });
        }
        j = j + 1;
    }
    proof {
        assert(b.take(j as int) =~= b);
    }
    kept
}

/// The store while a sweep is under way: the buckets of the first `n`
/// codes of the list are sifted, the others are as they were.
pub open spec fn swept_upto(s: Buckets, w: Weakness, marked: Set<u64>, codes: Seq<u64>, n: int) -> Buckets {
    Map::new(
        |code: u64|
            s.contains_key(code) && (codes.take(n).contains(code) ==> sifted(s[code], w, marked).len()
                > 0),
        |code: u64|
            if codes.take(n).contains(code) {
                sifted(s[code], w, marked)
            } else {
                s[code]
            },
    )
}

/// The sweep of a weak table, once marking is over: the table gives up the
/// entries that its weakness does not keep, given what is marked. A table
/// that is not waiting for a sweep is left as it is.
pub fn sweep_hashtable(map: &mut LispHashTable, marks: &Marks)
    requires
        old(map).wf(),
    ensures
        final(map).wf(),
        final(map)@ == old(map)@.swept(marks@),
{
    match map.header.mark {
        MarkState::PendingWeak => {},
        _ => {
            return ;
        },
    }
    let ghost s = map@.entries;
    let ghost t = map@.func;
    let w = map.weakness();
    let codes = map.map.codes();
    let mut i: usize = 0;
    proof {
        assert(codes@.take(0) =~= Seq::<u64>::empty());
        assert(map@.entries =~= swept_upto(s, w, marks@, codes@, 0));
    }
    while i < codes.len()
        invariant
            0 <= i <= codes.len(),
            map.wf(),
            map@ == old(map)@.with_entries(map@.entries),
            s == old(map)@.entries,
            t == old(map)@.func,
            w == old(map)@.weakness(),
            codes@.no_duplicates(),
            codes@.to_set() == s.dom(),
            map@.entries == swept_upto(s, w, marks@, codes@, i as int),
            map.map.count <= crate::store::count(s),
            old(map).wf(),
        decreases codes.len() - i,
    {
        let code = codes[i];
        let ghost current = map@.entries;
        proof {
            assert(codes@.to_set().contains(codes@[i as int]));
            let done = codes@.take(i as int);
            if done.contains(code) {
                let k = choose|k: int| 0 <= k < done.len() && done[k] == code;
                assert(codes@[k] == codes@[i as int]);
            }
            assert(current.contains_key(code));
            assert(current[code] == s[code]);
            lemma_sifted_keeps_order(s[code], w, marks@, t, silent());
        }
        let kept = sift_bucket(map.map.bucket(code), w, marks);
        map.map.set_bucket(code, kept);
        proof {
            let next = swept_upto(s, w, marks@, codes@, i + 1);
            let done = codes@.take(i as int);
            let more = codes@.take(i + 1);
            assert forall|c: u64| more.contains(c) <==> done.contains(c) || c == code by {
                if more.contains(c) {
                    let k = choose|k: int| 0 <= k < more.len() && more[k] == c;
                    if k < i {
                        assert(done[k] == c);
                    }
                }
                if done.contains(c) {
                    let k = choose|k: int| 0 <= k < done.len() && done[k] == c;
                    assert(more[k] == c);
                }
                if c == code {
                    assert(more[i as int] == c);
                }
            }
            assert(map@.entries =~= next);
            assert(wrapped(next, t)) by {
                assert forall|c: u64| #[trigger] next.contains_key(c) implies crate::bucket::wrapped_with(
                    next[c],
                    t,
                ) by {
                    assert(current.contains_key(c));
                }
            }
            if t.is_builtin() {
                assert(orderly(next, t, silent())) by {
                    assert forall|c: u64| #[trigger] next.contains_key(c) implies crate::bucket::hashed_to(
                        next[c],
                        t,
                        silent(),
                        c,
                    ) && crate::bucket::distinct(next[c], t, silent()) by {
                        assert(current.contains_key(c));
                    }
                }
            }
        }
        i = i + 1;
    }
    proof {
        assert(codes@.take(i as int) =~= codes@);
        assert forall|c: u64| s.contains_key(c) implies codes@.contains(c) by {
            assert(codes@.to_set().contains(c));
        }
        assert(map@.entries =~= swept(s, w, marks@));
    }
    map.header.mark = MarkState::Resolved;
}

/// Takes the mark of the collector off a table, for the next collection.
pub fn unmark_hashtable(map: &mut LispHashTable)
    requires
        old(map).wf(),
    ensures
        final(map).wf(),
        final(map)@ == old(map)@.unmarked(),
{
    map.header.mark = MarkState::Unmarked;
}

/// Finalizes a table that the collector has found dead: the store that the
/// table owns is released, entries and all. Nothing else changes.
pub fn hashtable_finalize(map: &mut LispHashTable)
    requires
        old(map).wf(),
    ensures
        final(map).wf(),
        final(map)@ == old(map)@.cleared(),
{
    map.map = Store::with_capacity(0);
}

} // verus!
