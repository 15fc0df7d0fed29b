//! Where the tables of a runtime live: a heap of tables that are known by
//! their handles, and the chain that threads the weak ones together for the
//! collector.

use crate::hashtable::{map_copy, LispHashTable, LispVectorlikeHeader, MarkState, TableView, Weakness};
use crate::object::LispObject;
use vstd::prelude::*;

verus! {

/// The tag in the header of a table that was allocated on a heap.
pub const PVEC_HASH_TABLE: u64 = 0x4000_0000_0000_0000;

/// The handle of a table on a heap.
#[derive(Clone, Copy, Debug, PartialEq, Eq, Structural)]
pub struct LispHashTableRef {
    pub index: usize,
}

/// A heap of tables, and the chain of the weak ones among them: the first
/// table of the chain, and for each table the one that follows it.
pub struct TableHeap {
    pub(crate) tables: Vec<LispHashTable>,
    pub(crate) next_weak: Vec<Option<LispHashTableRef>>,
    pub(crate) weak_head: Option<LispHashTableRef>,
}

/// The mathematical value of a [`TableHeap`].
pub struct HeapView {
    pub tables: Seq<TableView>,
    pub next_weak: Seq<Option<LispHashTableRef>>,
    pub weak_head: Option<LispHashTableRef>,
}

impl HeapView {
    /// Whether the handle is that of a table on the heap.
    pub open spec fn holds(self, r: LispHashTableRef) -> bool {
        r.index < self.tables.len()
    }

    /// Whether the end of a link, if it has one, is on the heap.
    pub open spec fn holds_link(self, link: Option<LispHashTableRef>) -> bool {
        match link {
            Some(r) => self.holds(r),
            None => true,
        }
    }

    /// The heap after a new table is allocated.
    pub open spec fn allocated(self) -> HeapView {
        HeapView {
            tables: self.tables.push(
                TableView {
                    header: LispVectorlikeHeader {
                        tag: PVEC_HASH_TABLE,
                        mark: MarkState::Unmarked,
                    },
                    ..LispHashTable::fresh()
                },
            ),
            next_weak: self.next_weak.push(None),
            weak_head: self.weak_head,
        }
    }

    /// The heap after `table` is put on it: the table comes last, and if it
    /// is weak, it becomes the first of the chain.
    pub open spec fn inserted(self, table: TableView) -> HeapView {
        let grown = HeapView {
            tables: self.tables.push(table),
            next_weak: self.next_weak.push(None),
            weak_head: self.weak_head,
        };
        if table.weakness() == Weakness::Strong {
            grown
        } else {
            grown.weak_linked(LispHashTableRef { index: self.tables.len() as usize })
        }
    }

    /// The heap after the table `to` has become a copy of the table `from`,
    /// link and all.
    pub open spec fn copied(self, to: LispHashTableRef, from: LispHashTableRef) -> HeapView {
        HeapView {
            tables: self.tables.update(to.index as int, self.tables[from.index as int]),
            next_weak: self.next_weak.update(to.index as int, self.next_weak[from.index as int]),
            weak_head: self.weak_head,
        }
    }

    /// The heap after the table `r` is linked in front of `next`.
    pub open spec fn linked(self, r: LispHashTableRef, next: Option<LispHashTableRef>) -> HeapView {
        HeapView { next_weak: self.next_weak.update(r.index as int, next), ..self }
    }

    /// The heap after the table `r` has become the first of the chain, in
    /// front of the table that was the first.
    pub open spec fn weak_linked(self, r: LispHashTableRef) -> HeapView {
        HeapView { weak_head: Some(r), ..self.linked(r, self.weak_head) }
    }

    /// The heap after the table `r` got a copy of its own: the copy is a new
    /// table at the end of the heap, and if `r` is weak, the copy follows it
    /// in the chain.
    pub open spec fn duplicated(self, r: LispHashTableRef) -> HeapView {
        let copy = LispHashTableRef { index: self.tables.len() as usize };
        let grown = HeapView {
            tables: self.tables.push(self.tables[r.index as int]),
            next_weak: self.next_weak.push(self.next_weak[r.index as int]),
            weak_head: self.weak_head,
        };
        if self.tables[r.index as int].weakness() == Weakness::Strong {
            grown
        } else {
            grown.linked(r, Some(copy))
        }
    }
}

impl View for TableHeap {
    type V = HeapView;

    open(crate) spec fn view(&self) -> HeapView {
        HeapView {
            tables: self.tables@.map_values(|t: LispHashTable| t@),
            next_weak: self.next_weak@,
            weak_head: self.weak_head,
        }
    }
}

impl TableHeap {
    /// Every table on the heap is in order and has a link, and every link
    /// ends on the heap.
    pub open(crate) spec fn wf(&self) -> bool {
        &&& self.tables.len() == self.next_weak.len()
        &&& forall|i: int| 0 <= i < self.tables.len() ==> (#[trigger] self.tables[i]).wf()
        &&& forall|i: int|
            0 <= i < self.next_weak.len() ==> self@.holds_link(#[trigger] self.next_weak[i])
        &&& self@.holds_link(self.weak_head)
    }

    /// A heap without tables.
    pub fn new() -> (out: TableHeap)
        ensures
            out.wf(),
            out@.tables.len() == 0,
            out@.weak_head is None,
    {
        TableHeap { tables: Vec::new(), next_weak: Vec::new(), weak_head: None }
    }

    /// Whether the handle is that of a table on this heap.
    pub fn holds(&self, r: LispHashTableRef) -> (out: bool)
        ensures
            out == self@.holds(r),
    {
        r.index < self.tables.len()
    }

    /// The table of a handle.
    pub fn table(&self, r: LispHashTableRef) -> (out: &LispHashTable)
        requires
            self.wf(),
            self@.holds(r),
        ensures
            out.wf(),
            out@ == self@.tables[r.index as int],
    {
        &self.tables[r.index]
    }

    /// Puts a table on the heap and returns its handle. A weak table
    /// becomes the first of the chain of weak tables.
    pub fn insert(&mut self, table: LispHashTable) -> (out: LispHashTableRef)
        requires
            old(self).wf(),
            table.wf(),
        ensures
            final(self).wf(),
            out.index == old(self)@.tables.len(),
            final(self)@ == old(self)@.inserted(table@),
    {
        let out = LispHashTableRef { index: self.tables.len() };
        let weak = table.get_weak().is_not_nil();
        self.tables.push(table);
        self.next_weak.push(None);
        proof {
            assert(self@.tables =~= old(self)@.tables.push(table@));
        }
        if weak {
            self.link_weak(out);
        }
        out
    }

    /// The table of a handle, to work on. The links stay as they are.
    pub fn table_mut(&mut self, r: LispHashTableRef) -> (out: &mut LispHashTable)
        requires
            old(self).wf(),
            old(self)@.holds(r),
        ensures
            out.wf(),
            out@ == old(self)@.tables[r.index as int],
            final(self)@.tables =~= old(self)@.tables.update(r.index as int, final(out)@),
            final(self)@.next_weak == old(self)@.next_weak,
            final(self)@.weak_head == old(self)@.weak_head,
            final(out).wf() ==> final(self).wf(),
    {
        &mut self.tables[r.index]
    }

    /// The first table of the chain of weak tables.
    pub fn weak_head(&self) -> (out: Option<LispHashTableRef>)
        ensures
            out == self@.weak_head,
    {
        self.weak_head
    }

    /// Makes the table `r` the first of the chain of weak tables; the table
    /// that was the first follows it.
    pub fn link_weak(&mut self, r: LispHashTableRef)
        requires
            old(self).wf(),
            old(self)@.holds(r),
        ensures
            final(self).wf(),
            final(self)@ == old(self)@.weak_linked(r),
    {
        let head = self.weak_head;
        self.next_weak.set(r.index, head);
        self.weak_head = Some(r);
    }
}

impl LispHashTableRef {
    /// Allocates a new table on the heap: empty, with the identity test,
    /// strong, not pure, tagged as a hash table, and outside the chain.
    pub fn allocate(heap: &mut TableHeap) -> (out: LispHashTableRef)
        requires
            old(heap).wf(),
        ensures
            final(heap).wf(),
            out.index == old(heap)@.tables.len(),
            final(heap)@ == old(heap)@.allocated(),
    {
        let mut table = LispHashTable::new();
        table.header.tag = PVEC_HASH_TABLE;
        let out = heap.insert(table);
        proof {
            assert(heap@.tables =~= old(heap)@.allocated().tables);
        }
        out
    }

    /// Makes this table a copy of the table `other`: the same frame, test,
    /// weakness, purity and link, and entries of its own that are the same.
    pub fn copy(&self, heap: &mut TableHeap, other: LispHashTableRef)
        requires
            old(heap).wf(),
            old(heap)@.holds(*self),
            old(heap)@.holds(other),
        ensures
            final(heap).wf(),
            final(heap)@ == old(heap)@.copied(*self, other),
    {
        let twin = map_copy(&heap.tables[other.index]);
        let link = heap.next_weak[other.index];
        heap.tables.set(self.index, twin);
        heap.next_weak.set(self.index, link);
        proof {
            assert(heap@.tables =~= old(heap)@.copied(*self, other).tables);
        }
    }

    /// Links this table in front of `other` in the chain of weak tables.
    pub fn set_next_weak(&self, heap: &mut TableHeap, other: Option<LispHashTableRef>)
        requires
            old(heap).wf(),
            old(heap)@.holds(*self),
            old(heap)@.holds_link(other),
        ensures
            final(heap).wf(),
            final(heap)@ == old(heap)@.linked(*self, other),
    {
        heap.next_weak.set(self.index, other);
    }

    /// The table that follows this one in the chain of weak tables.
    pub fn get_next_weak(&self, heap: &TableHeap) -> (out: Option<LispHashTableRef>)
        requires
            heap.wf(),
            heap@.holds(*self),
        ensures
            out == heap@.next_weak[self.index as int],
            heap@.holds_link(out),
    {
        heap.next_weak[self.index]
    }

    /// The marker object that says how this table holds on to its entries.
    pub fn get_weak(&self, heap: &TableHeap) -> (out: LispObject)
        requires
            heap.wf(),
            heap@.holds(*self),
        ensures
            out@ == heap@.tables[self.index as int].weak,
    {
        heap.tables[self.index].weak.clone()
    }
}

/// Gives the table `htable` a copy of its own on the heap and returns the
/// handle of the copy. Keys and values are not copied, only the table is:
/// the copy has entries of its own that hold the same objects. The copy of
/// a weak table follows it in the chain of weak tables.
pub fn copy_hash_table(heap: &mut TableHeap, htable: LispHashTableRef) -> (out: LispHashTableRef)
    requires
        old(heap).wf(),
        old(heap)@.holds(htable),
    ensures
        final(heap).wf(),
        out.index == old(heap)@.tables.len(),
        final(heap)@ == old(heap)@.duplicated(htable),
{
    let new_table = LispHashTableRef::allocate(heap);
    new_table.copy(heap, htable);
    if new_table.get_weak(heap).is_not_nil() {
        let next = htable.get_next_weak(heap);
        new_table.set_next_weak(heap, next);
        htable.set_next_weak(heap, Some(new_table));
    }
    proof {
        let before = old(heap)@;
        assert(heap@.tables =~= before.duplicated(htable).tables);
        assert(heap@.next_weak =~= before.duplicated(htable).next_weak);
    }
    new_table
}

} // verus!
