use lisp_hashtable::gc::{
    hashtable_finalize, mark_hashtable, sweep_hashtable, unmark_hashtable, Marks,
};
use lisp_hashtable::hashtable::{
    make_hash_map, map_count, map_get, map_put, LispHashTable, MarkState,
};
use lisp_hashtable::heap::{copy_hash_table, LispHashTableRef, TableHeap, PVEC_HASH_TABLE};
use lisp_hashtable::object::{
    Cell, LispObject, QCTEST, QCWEAKNESS, QEQUAL, QKEY, QKEY_AND_VALUE, QT, QVALUE,
};
use lisp_hashtable::pure::pure_copy_hashtable;
use lisp_hashtable::registry::HashTestRegistry;

fn no_host(_f: &LispObject, _args: &Vec<LispObject>) -> LispObject {
    LispObject::Nil
}

fn string_at(addr: u64, text: &str) -> LispObject {
    LispObject::Str { cell: Cell { pure: false, addr }, bytes: text.as_bytes().to_vec() }
}

fn list(items: &[LispObject]) -> LispObject {
    let mut out = LispObject::Nil;
    for (i, item) in items.iter().enumerate().rev() {
        let cell = Cell { pure: false, addr: 9000 + i as u64 };
        out = LispObject::cons(cell, item.clone(), out);
    }
    out
}

fn weak_table(marker: u64) -> LispHashTable {
    let args = [
        LispObject::Symbol(QCTEST),
        LispObject::Symbol(QEQUAL),
        LispObject::Symbol(QCWEAKNESS),
        LispObject::Symbol(marker),
    ];
    make_hash_map(&args, &HashTestRegistry::new()).unwrap()
}

fn filled(marker: u64) -> LispHashTable {
    let mut table = weak_table(marker);
    // key cell, value cell
    map_put(&mut table, string_at(1, "both"), string_at(101, "v1"), &no_host);
    map_put(&mut table, string_at(2, "key only"), string_at(102, "v2"), &no_host);
    map_put(&mut table, string_at(3, "value only"), string_at(103, "v3"), &no_host);
    map_put(&mut table, string_at(4, "neither"), string_at(104, "v4"), &no_host);
    map_put(&mut table, LispObject::Int(5), LispObject::Int(105), &no_host);
    table
}

fn other_roots() -> Marks {
    let mut marks = Marks::new();
    for addr in [1u64, 101, 2, 103] {
        marks.mark_object(&string_at(addr, ""));
    }
    marks
}

#[test]
fn marks_know_what_was_marked() {
    let mut marks = Marks::new();
    assert!(!marks.survives(&string_at(1, "a")));
    marks.mark_object(&string_at(1, "a"));
    assert!(marks.survives(&string_at(1, "other text, same cell")));
    assert!(!marks.survives(&string_at(2, "a")));
    assert!(marks.survives(&LispObject::Int(3)));
    assert!(marks.survives(&LispObject::Nil));
    assert!(marks.survives(&LispObject::Symbol(9)));
    assert!(marks.survives(&string_at(2, "a").purecopy()));
}

#[test]
fn strong_table_marks_all_it_holds() {
    let mut table = LispHashTable::new();
    map_put(&mut table, string_at(1, "k"), string_at(2, "v"), &no_host);
    map_put(&mut table, string_at(3, "k"), LispObject::Int(1), &no_host);
    let mut marks = Marks::new();
    mark_hashtable(&mut table, &mut marks);
    assert_eq!(table.header().mark, MarkState::StronglyMarked);
    for addr in [1u64, 2, 3] {
        assert!(marks.survives(&string_at(addr, "")));
    }
    assert!(!marks.survives(&string_at(4, "")));
    // A sweep leaves a strong table alone.
    sweep_hashtable(&mut table, &Marks::new());
    assert_eq!(map_count(&table), LispObject::Int(2));
    assert_eq!(table.header().mark, MarkState::StronglyMarked);
}

#[test]
fn weak_table_marks_none_of_its_entries() {
    let mut table = filled(QKEY);
    let mut marks = Marks::new();
    mark_hashtable(&mut table, &mut marks);
    assert_eq!(table.header().mark, MarkState::PendingWeak);
    for addr in [1u64, 2, 3, 4, 101, 102, 103, 104] {
        assert!(!marks.survives(&string_at(addr, "")));
    }
    assert_eq!(map_count(&table), LispObject::Int(5));
}

#[test]
fn user_defined_test_keeps_its_functions_alive() {
    let mut registry = HashTestRegistry::new();
    registry.define(string_at(50, "mine"), list(&[string_at(51, "same"), string_at(52, "hash")]));
    for marker in [LispObject::Nil, LispObject::Symbol(QKEY)] {
        let args = [
            LispObject::Symbol(QCTEST),
            string_at(50, "mine"),
            LispObject::Symbol(QCWEAKNESS),
            marker,
        ];
        let mut table = make_hash_map(&args, &registry).unwrap();
        let mut marks = Marks::new();
        mark_hashtable(&mut table, &mut marks);
        for addr in [50u64, 51, 52] {
            assert!(marks.survives(&string_at(addr, "")));
        }
        // The list that the functions were registered in is not held.
        assert!(!marks.survives(&string_at(9000, "")));
    }
}

#[test]
fn marking_a_pair_marks_its_parts() {
    let mut marks = Marks::new();
    let inner = LispObject::cons(
        Cell { pure: false, addr: 2 },
        string_at(3, "x"),
        string_at(4, "y").purecopy(),
    );
    let outer = LispObject::cons(Cell { pure: false, addr: 1 }, inner, LispObject::Int(7));
    marks.mark_object(&outer);
    for addr in [1u64, 2, 3] {
        assert!(marks.survives(&string_at(addr, "")));
    }
    assert!(!marks.survives(&string_at(4, "")));
    assert!(!marks.survives(&string_at(7, "")));
}

#[test]
fn key_weak_sweep_drops_entries_with_dead_keys() {
    let mut table = filled(QKEY);
    let mut marks = other_roots();
    mark_hashtable(&mut table, &mut marks);
    sweep_hashtable(&mut table, &marks);
    assert_eq!(table.header().mark, MarkState::Resolved);
    assert_eq!(map_count(&table), LispObject::Int(3));
    assert_eq!(map_get(&table, string_at(0, "both"), &no_host), string_at(101, "v1"));
    assert_eq!(map_get(&table, string_at(0, "key only"), &no_host), string_at(102, "v2"));
    assert_eq!(map_get(&table, string_at(0, "value only"), &no_host), LispObject::Nil);
    assert_eq!(map_get(&table, string_at(0, "neither"), &no_host), LispObject::Nil);
    assert_eq!(map_get(&table, LispObject::Int(5), &no_host), LispObject::Int(105));
}

#[test]
fn value_weak_sweep_drops_entries_with_dead_values() {
    let mut table = filled(QVALUE);
    let mut marks = other_roots();
    mark_hashtable(&mut table, &mut marks);
    sweep_hashtable(&mut table, &marks);
    assert_eq!(map_count(&table), LispObject::Int(3));
    assert_eq!(map_get(&table, string_at(0, "both"), &no_host), string_at(101, "v1"));
    assert_eq!(map_get(&table, string_at(0, "key only"), &no_host), LispObject::Nil);
    assert_eq!(map_get(&table, string_at(0, "value only"), &no_host), string_at(103, "v3"));
    assert_eq!(map_get(&table, string_at(0, "neither"), &no_host), LispObject::Nil);
}

#[test]
fn key_and_value_weak_sweep_needs_both_alive() {
    for marker in [QKEY_AND_VALUE, QT] {
        let mut table = filled(marker);
        let mut marks = other_roots();
        mark_hashtable(&mut table, &mut marks);
        sweep_hashtable(&mut table, &marks);
        assert_eq!(map_count(&table), LispObject::Int(2));
        assert_eq!(map_get(&table, string_at(0, "both"), &no_host), string_at(101, "v1"));
        assert_eq!(map_get(&table, string_at(0, "key only"), &no_host), LispObject::Nil);
        assert_eq!(map_get(&table, string_at(0, "value only"), &no_host), LispObject::Nil);
        assert_eq!(map_get(&table, LispObject::Int(5), &no_host), LispObject::Int(105));
    }
}

#[test]
fn sweep_can_empty_a_table() {
    let mut table = weak_table(QKEY);
    map_put(&mut table, string_at(1, "a"), LispObject::Int(1), &no_host);
    map_put(&mut table, string_at(2, "b"), LispObject::Int(2), &no_host);
    let mut marks = Marks::new();
    mark_hashtable(&mut table, &mut marks);
    sweep_hashtable(&mut table, &marks);
    assert_eq!(map_count(&table), LispObject::Int(0));
    map_put(&mut table, string_at(1, "a"), LispObject::Int(3), &no_host);
    assert_eq!(map_get(&table, string_at(1, "a"), &no_host), LispObject::Int(3));
}

#[test]
fn sweep_waits_for_the_mark() {
    let mut table = filled(QKEY);
    sweep_hashtable(&mut table, &Marks::new());
    assert_eq!(map_count(&table), LispObject::Int(5));
    assert_eq!(table.header().mark, MarkState::Unmarked);
    let mut marks = Marks::new();
    mark_hashtable(&mut table, &mut marks);
    sweep_hashtable(&mut table, &marks);
    assert_eq!(map_count(&table), LispObject::Int(1));
    // Swept once, the table is resolved and a second sweep changes nothing.
    map_put(&mut table, string_at(9, "late"), LispObject::Int(9), &no_host);
    sweep_hashtable(&mut table, &marks);
    assert_eq!(map_count(&table), LispObject::Int(2));
    unmark_hashtable(&mut table);
    assert_eq!(table.header().mark, MarkState::Unmarked);
}

#[test]
fn pure_objects_outlive_every_sweep() {
    let mut table = weak_table(QKEY);
    map_put(&mut table, string_at(1, "a").purecopy(), LispObject::Int(1), &no_host);
    let mut marks = Marks::new();
    mark_hashtable(&mut table, &mut marks);
    sweep_hashtable(&mut table, &marks);
    assert_eq!(map_count(&table), LispObject::Int(1));
}

#[test]
fn finalize_releases_the_entries_and_nothing_else() {
    let mut table = filled(QVALUE);
    let mut marks = Marks::new();
    mark_hashtable(&mut table, &mut marks);
    hashtable_finalize(&mut table);
    assert_eq!(map_count(&table), LispObject::Int(0));
    assert_eq!(map_get(&table, string_at(0, "both"), &no_host), LispObject::Nil);
    assert_eq!(table.get_weak(), LispObject::Symbol(QVALUE));
    assert_eq!(lisp_hashtable::hashtable::map_test(&table), LispObject::Symbol(QEQUAL));
    assert_eq!(table.header().mark, MarkState::PendingWeak);
}

#[test]
fn pure_copy_is_pure_strong_and_frozen() {
    let mut table = filled(QKEY);
    let mut marks = Marks::new();
    mark_hashtable(&mut table, &mut marks);
    let frozen = pure_copy_hashtable(&table, &no_host);
    assert!(frozen.is_pure());
    assert_eq!(frozen.get_weak(), LispObject::Nil);
    assert_eq!(frozen.header(), table.header());
    assert_eq!(map_count(&frozen), LispObject::Int(5));
    assert_eq!(
        map_get(&frozen, string_at(0, "both"), &no_host),
        string_at(101, "v1").purecopy()
    );
    assert_eq!(map_get(&frozen, LispObject::Int(5), &no_host), LispObject::Int(105));
    // The source is as it was.
    assert!(!table.is_pure());
    assert_eq!(table.get_weak(), LispObject::Symbol(QKEY));
    assert_eq!(map_get(&table, string_at(0, "both"), &no_host), string_at(101, "v1"));
}

#[test]
fn pure_copy_twice_is_pure_copy_once() {
    let table = filled(QVALUE);
    let once = pure_copy_hashtable(&table, &no_host);
    let twice = pure_copy_hashtable(&once, &no_host);
    assert_eq!(map_count(&twice), map_count(&once));
    assert!(twice.is_pure());
    assert_eq!(twice.get_weak(), LispObject::Nil);
    for text in ["both", "key only", "value only", "neither"] {
        assert_eq!(
            map_get(&twice, string_at(0, text), &no_host),
            map_get(&once, string_at(0, text), &no_host)
        );
        assert!(map_get(&once, string_at(0, text), &no_host).is_not_nil());
    }
}

#[test]
fn pure_copy_of_identity_table_holds_the_frozen_keys() {
    let mut table = LispHashTable::new();
    map_put(&mut table, string_at(1, "a"), LispObject::Int(1), &no_host);
    map_put(&mut table, string_at(2, "a"), LispObject::Int(2), &no_host);
    let frozen = pure_copy_hashtable(&table, &no_host);
    assert_eq!(map_count(&frozen), LispObject::Int(2));
    assert_eq!(map_get(&frozen, string_at(1, "a"), &no_host), LispObject::Nil);
    assert_eq!(map_get(&frozen, string_at(1, "a").purecopy(), &no_host), LispObject::Int(1));
    assert_eq!(map_get(&frozen, string_at(2, "a").purecopy(), &no_host), LispObject::Int(2));
}

#[test]
fn pure_copy_joins_an_object_and_its_frozen_copy() {
    let mut table = LispHashTable::new();
    map_put(&mut table, string_at(1, "a"), LispObject::Int(1), &no_host);
    map_put(&mut table, string_at(1, "a").purecopy(), LispObject::Int(2), &no_host);
    assert_eq!(map_count(&table), LispObject::Int(2));
    let frozen = pure_copy_hashtable(&table, &no_host);
    assert_eq!(map_count(&frozen), LispObject::Int(1));
    assert_eq!(map_get(&frozen, string_at(1, "a").purecopy(), &no_host), LispObject::Int(2));
}

#[test]
fn pure_copy_freezes_a_user_defined_test() {
    let mut registry = HashTestRegistry::new();
    registry.define(string_at(50, "mine"), list(&[string_at(51, "same"), string_at(52, "hash")]));
    let args = [LispObject::Symbol(QCTEST), string_at(50, "mine")];
    let table = make_hash_map(&args, &registry).unwrap();
    let frozen = pure_copy_hashtable(&table, &no_host);
    assert_eq!(lisp_hashtable::hashtable::map_test(&frozen), string_at(50, "mine").purecopy());
    let mut frozen = frozen;
    let mut marks = Marks::new();
    mark_hashtable(&mut frozen, &mut marks);
    for addr in [50u64, 51, 52] {
        assert!(!marks.survives(&string_at(addr, "")));
    }
}

#[test]
fn heap_allocates_tagged_empty_tables() {
    let mut heap = TableHeap::new();
    assert_eq!(heap.weak_head(), None);
    let first = LispHashTableRef::allocate(&mut heap);
    let second = LispHashTableRef::allocate(&mut heap);
    assert_eq!(first.index, 0);
    assert_eq!(second.index, 1);
    assert!(heap.holds(first) && heap.holds(second));
    assert!(!heap.holds(LispHashTableRef { index: 2 }));
    assert_eq!(heap.table(first).header().tag, PVEC_HASH_TABLE);
    assert_eq!(map_count(heap.table(first)), LispObject::Int(0));
    assert_eq!(first.get_next_weak(&heap), None);
    assert_eq!(first.get_weak(&heap), LispObject::Nil);
}

#[test]
fn copy_of_a_strong_table_stays_out_of_the_chain() {
    let mut heap = TableHeap::new();
    let mut table = LispHashTable::new();
    map_put(&mut table, LispObject::Int(1), LispObject::Int(10), &no_host);
    let source = heap.insert(table);
    let copy = copy_hash_table(&mut heap, source);
    assert_eq!(copy.index, 1);
    assert_eq!(map_get(heap.table(copy), LispObject::Int(1), &no_host), LispObject::Int(10));
    assert_eq!(source.get_next_weak(&heap), None);
    assert_eq!(copy.get_next_weak(&heap), None);
    assert_eq!(heap.weak_head(), None);
}

#[test]
fn weak_tables_join_the_chain_when_they_come_to_the_heap() {
    let mut heap = TableHeap::new();
    let strong = heap.insert(LispHashTable::new());
    assert_eq!(heap.weak_head(), None);
    let first = heap.insert(weak_table(QKEY));
    assert_eq!(heap.weak_head(), Some(first));
    assert_eq!(first.get_next_weak(&heap), None);
    let second = heap.insert(weak_table(QT));
    assert_eq!(heap.weak_head(), Some(second));
    assert_eq!(second.get_next_weak(&heap), Some(first));
    assert_eq!(strong.get_next_weak(&heap), None);
    heap.link_weak(strong);
    assert_eq!(heap.weak_head(), Some(strong));
    assert_eq!(strong.get_next_weak(&heap), Some(second));
}

#[test]
fn copy_of_a_weak_table_follows_it_in_the_chain() {
    let mut heap = TableHeap::new();
    let tail = heap.insert(weak_table(QVALUE));
    let source = heap.insert(filled(QKEY));
    assert_eq!(heap.weak_head(), Some(source));
    assert_eq!(source.get_next_weak(&heap), Some(tail));
    let copy = copy_hash_table(&mut heap, source);
    assert_eq!(heap.weak_head(), Some(source));
    assert_eq!(source.get_next_weak(&heap), Some(copy));
    assert_eq!(copy.get_next_weak(&heap), Some(tail));
    assert_eq!(tail.get_next_weak(&heap), None);
    assert_eq!(copy.get_weak(&heap), LispObject::Symbol(QKEY));
    assert_eq!(map_count(heap.table(copy)), LispObject::Int(5));
    // The copy has entries of its own.
    map_put(heap.table_mut(copy), string_at(9, "new"), LispObject::Int(9), &no_host);
    assert_eq!(map_count(heap.table(copy)), LispObject::Int(6));
    assert_eq!(map_count(heap.table(source)), LispObject::Int(5));
    lisp_hashtable::hashtable::map_clear(heap.table_mut(source));
    assert_eq!(map_count(heap.table(copy)), LispObject::Int(6));
    assert_eq!(map_count(heap.table(source)), LispObject::Int(0));
}

#[test]
fn handle_copy_makes_one_table_like_another() {
    let mut heap = TableHeap::new();
    let source = heap.insert(filled(QKEY));
    let other = heap.insert(weak_table(QVALUE));
    let target = LispHashTableRef::allocate(&mut heap);
    target.copy(&mut heap, other);
    assert_eq!(target.get_weak(&heap), LispObject::Symbol(QVALUE));
    assert_eq!(target.get_next_weak(&heap), Some(source));
    assert_eq!(map_count(heap.table(target)), LispObject::Int(0));
    target.set_next_weak(&mut heap, None);
    assert_eq!(target.get_next_weak(&heap), None);
    assert_eq!(other.get_next_weak(&heap), Some(source));
}
