use lisp_hashtable::hashtable::{
    make_hash_map, map_clear, map_copy, map_count, map_get, map_put, map_rehash_size,
    map_rehash_threshold, map_rm, map_test, HashTableError, LispHashTable, MarkState, Weakness,
};
use lisp_hashtable::object::{
    Cell, LispObject, QCPURECOPY, QCSIZE, QCTEST, QCWEAKNESS, QEQ, QEQL, QEQUAL, QKEY,
    QKEY_AND_VALUE, QT, QVALUE,
};
use lisp_hashtable::registry::HashTestRegistry;

fn no_host(_f: &LispObject, _args: &Vec<LispObject>) -> LispObject {
    LispObject::Nil
}

fn string_at(addr: u64, text: &str) -> LispObject {
    LispObject::Str { cell: Cell { pure: false, addr }, bytes: text.as_bytes().to_vec() }
}

fn float_at(addr: u64, number: f64) -> LispObject {
    LispObject::Float { cell: Cell { pure: false, addr }, bits: number.to_bits() }
}

fn table_with_test(test: u64) -> LispHashTable {
    let args = [LispObject::Symbol(QCTEST), LispObject::Symbol(test)];
    match make_hash_map(&args, &HashTestRegistry::new()) {
        Ok(table) => table,
        Err(e) => panic!("no table: {:?}", e),
    }
}

#[test]
fn new_table_is_empty_strong_and_identity() {
    let table = LispHashTable::new();
    assert_eq!(map_count(&table), LispObject::Int(0));
    assert_eq!(map_test(&table), LispObject::Symbol(QEQ));
    assert_eq!(table.get_weak(), LispObject::Nil);
    assert_eq!(table.weakness(), Weakness::Strong);
    assert!(!table.is_pure());
    assert_eq!(table.header().mark, MarkState::Unmarked);
    assert_eq!(table.header().tag, 0);
}

#[test]
fn with_capacity_gives_the_same_table_whatever_the_capacity() {
    for cap in [0usize, 1, 65, 1 << 20, usize::MAX] {
        let table = LispHashTable::with_capacity(cap);
        assert_eq!(map_count(&table), LispObject::Int(0));
        assert_eq!(map_test(&table), LispObject::Symbol(QEQ));
    }
}

#[test]
fn equal_table_end_to_end() {
    let args = [
        LispObject::Symbol(QCTEST),
        LispObject::Symbol(QEQUAL),
        LispObject::Symbol(QCSIZE),
        LispObject::Int(8),
    ];
    let mut table = make_hash_map(&args, &HashTestRegistry::new()).unwrap();
    let out = map_put(&mut table, string_at(1, "a"), LispObject::Int(1), &no_host);
    assert_eq!(out, LispObject::Int(1));
    let out = map_put(&mut table, string_at(2, "a"), LispObject::Int(2), &no_host);
    assert_eq!(out, LispObject::Int(2));
    assert_eq!(map_count(&table), LispObject::Int(1));
    assert_eq!(map_get(&table, string_at(3, "a"), &no_host), LispObject::Int(2));
    map_rm(&mut table, string_at(4, "a"), &no_host);
    assert_eq!(map_count(&table), LispObject::Int(0));
    assert_eq!(map_get(&table, string_at(1, "a"), &no_host), LispObject::Nil);
}

#[test]
fn put_then_get_under_every_builtin_test() {
    for test in [QEQ, QEQL, QEQUAL] {
        let mut table = table_with_test(test);
        let keys = [
            LispObject::Nil,
            LispObject::Int(-7),
            LispObject::Symbol(77),
            float_at(10, 1.5),
            string_at(11, "key"),
        ];
        for (i, key) in keys.iter().enumerate() {
            map_put(&mut table, key.clone(), LispObject::Int(i as i64), &no_host);
        }
        for (i, key) in keys.iter().enumerate() {
            assert_eq!(map_get(&table, key.clone(), &no_host), LispObject::Int(i as i64));
        }
        assert_eq!(map_count(&table), LispObject::Int(5));
    }
}

#[test]
fn identity_keeps_equal_strings_apart() {
    let mut table = table_with_test(QEQ);
    map_put(&mut table, string_at(1, "a"), LispObject::Int(1), &no_host);
    map_put(&mut table, string_at(2, "a"), LispObject::Int(2), &no_host);
    assert_eq!(map_count(&table), LispObject::Int(2));
    assert_eq!(map_get(&table, string_at(1, "a"), &no_host), LispObject::Int(1));
    assert_eq!(map_get(&table, string_at(2, "a"), &no_host), LispObject::Int(2));
    assert_eq!(map_get(&table, string_at(3, "a"), &no_host), LispObject::Nil);
}

#[test]
fn identity_tells_heap_from_permanent_storage() {
    let mut table = table_with_test(QEQ);
    let heap = string_at(1, "a");
    let pure = heap.purecopy();
    map_put(&mut table, heap.clone(), LispObject::Int(1), &no_host);
    assert_eq!(map_get(&table, pure, &no_host), LispObject::Nil);
    assert_eq!(map_get(&table, heap, &no_host), LispObject::Int(1));
}

#[test]
fn eql_goes_by_the_number_for_floats_only() {
    let mut table = table_with_test(QEQL);
    map_put(&mut table, float_at(1, 2.5), LispObject::Int(1), &no_host);
    map_put(&mut table, float_at(2, 2.5), LispObject::Int(2), &no_host);
    assert_eq!(map_count(&table), LispObject::Int(1));
    assert_eq!(map_get(&table, float_at(3, 2.5), &no_host), LispObject::Int(2));
    map_put(&mut table, string_at(4, "a"), LispObject::Int(3), &no_host);
    map_put(&mut table, string_at(5, "a"), LispObject::Int(4), &no_host);
    assert_eq!(map_count(&table), LispObject::Int(3));
    assert_eq!(map_get(&table, string_at(4, "a"), &no_host), LispObject::Int(3));
}

#[test]
fn eql_tells_zero_from_minus_zero() {
    let mut table = table_with_test(QEQL);
    map_put(&mut table, float_at(1, 0.0), LispObject::Int(1), &no_host);
    assert_eq!(map_get(&table, float_at(2, -0.0), &no_host), LispObject::Nil);
    assert_eq!(map_get(&table, float_at(3, 0.0), &no_host), LispObject::Int(1));
}

#[test]
fn identity_keeps_equal_floats_apart() {
    let mut table = table_with_test(QEQ);
    map_put(&mut table, float_at(1, 2.5), LispObject::Int(1), &no_host);
    map_put(&mut table, float_at(2, 2.5), LispObject::Int(2), &no_host);
    assert_eq!(map_count(&table), LispObject::Int(2));
}

#[test]
fn overwriting_keeps_the_first_key() {
    let mut table = table_with_test(QEQUAL);
    map_put(&mut table, string_at(1, "a"), LispObject::Int(1), &no_host);
    map_put(&mut table, string_at(2, "a"), LispObject::Int(2), &no_host);
    let mut marks = lisp_hashtable::gc::Marks::new();
    lisp_hashtable::gc::mark_hashtable(&mut table, &mut marks);
    assert!(marks.survives(&string_at(1, "a")));
    assert!(!marks.survives(&string_at(2, "a")));
}

#[test]
fn keys_that_share_a_hash_code_do_not_mix() {
    let mut table = table_with_test(QEQ);
    // The fixnum 5, the symbol 5 and a string in cell 5 all hash to 5.
    map_put(&mut table, LispObject::Int(5), LispObject::Int(1), &no_host);
    map_put(&mut table, LispObject::Symbol(5), LispObject::Int(2), &no_host);
    map_put(&mut table, string_at(5, "x"), LispObject::Int(3), &no_host);
    assert_eq!(map_count(&table), LispObject::Int(3));
    assert_eq!(map_get(&table, LispObject::Int(5), &no_host), LispObject::Int(1));
    assert_eq!(map_get(&table, LispObject::Symbol(5), &no_host), LispObject::Int(2));
    assert_eq!(map_get(&table, string_at(5, "y"), &no_host), LispObject::Int(3));
    map_rm(&mut table, LispObject::Symbol(5), &no_host);
    assert_eq!(map_count(&table), LispObject::Int(2));
    assert_eq!(map_get(&table, LispObject::Int(5), &no_host), LispObject::Int(1));
    assert_eq!(map_get(&table, LispObject::Symbol(5), &no_host), LispObject::Nil);
    assert_eq!(map_get(&table, string_at(5, "x"), &no_host), LispObject::Int(3));
}

#[test]
fn count_follows_insertions_and_removals() {
    let mut table = table_with_test(QEQUAL);
    let n = 40;
    for i in 0..n {
        map_put(&mut table, string_at(i, &format!("key{}", i)), LispObject::Int(i as i64), &no_host);
        assert_eq!(map_count(&table), LispObject::Int(i as i64 + 1));
    }
    let k = 15;
    for i in 0..k {
        map_rm(&mut table, string_at(1000 + i, &format!("key{}", i)), &no_host);
        assert_eq!(map_count(&table), LispObject::Int((n - i - 1) as i64));
    }
    for i in 0..n {
        let expected = if i < k { LispObject::Nil } else { LispObject::Int(i as i64) };
        assert_eq!(map_get(&table, string_at(0, &format!("key{}", i)), &no_host), expected);
    }
    map_clear(&mut table);
    assert_eq!(map_count(&table), LispObject::Int(0));
    assert_eq!(map_test(&table), LispObject::Symbol(QEQUAL));
}

#[test]
fn removing_an_absent_key_does_nothing() {
    let mut table = table_with_test(QEQ);
    map_put(&mut table, LispObject::Int(1), LispObject::Int(10), &no_host);
    map_rm(&mut table, LispObject::Int(2), &no_host);
    assert_eq!(map_count(&table), LispObject::Int(1));
    assert_eq!(map_get(&table, LispObject::Int(1), &no_host), LispObject::Int(10));
}

#[test]
fn clear_keeps_test_weakness_and_purity() {
    let args = [
        LispObject::Symbol(QCTEST),
        LispObject::Symbol(QEQL),
        LispObject::Symbol(QCWEAKNESS),
        LispObject::Symbol(QVALUE),
        LispObject::Symbol(QCPURECOPY),
        LispObject::Symbol(QT),
    ];
    let mut table = make_hash_map(&args, &HashTestRegistry::new()).unwrap();
    map_put(&mut table, LispObject::Int(1), LispObject::Int(10), &no_host);
    map_clear(&mut table);
    assert_eq!(map_count(&table), LispObject::Int(0));
    assert_eq!(map_test(&table), LispObject::Symbol(QEQL));
    assert_eq!(table.get_weak(), LispObject::Symbol(QVALUE));
    assert!(table.is_pure());
}

#[test]
fn a_copy_has_storage_of_its_own() {
    let args = [
        LispObject::Symbol(QCTEST),
        LispObject::Symbol(QEQUAL),
        LispObject::Symbol(QCWEAKNESS),
        LispObject::Symbol(QKEY),
    ];
    let mut table = make_hash_map(&args, &HashTestRegistry::new()).unwrap();
    map_put(&mut table, string_at(1, "a"), LispObject::Int(1), &no_host);
    map_put(&mut table, string_at(2, "b"), LispObject::Int(2), &no_host);
    let mut copy = map_copy(&table);
    assert_eq!(map_count(&copy), map_count(&table));
    assert_eq!(map_test(&copy), map_test(&table));
    assert_eq!(copy.get_weak(), table.get_weak());
    assert_eq!(map_get(&copy, string_at(9, "a"), &no_host), LispObject::Int(1));
    map_put(&mut copy, string_at(3, "c"), LispObject::Int(3), &no_host);
    map_put(&mut copy, string_at(4, "a"), LispObject::Int(100), &no_host);
    assert_eq!(map_count(&table), LispObject::Int(2));
    assert_eq!(map_get(&table, string_at(9, "a"), &no_host), LispObject::Int(1));
    assert_eq!(map_get(&table, string_at(9, "c"), &no_host), LispObject::Nil);
    map_rm(&mut table, string_at(9, "b"), &no_host);
    assert_eq!(map_count(&copy), LispObject::Int(3));
    assert_eq!(map_get(&copy, string_at(9, "b"), &no_host), LispObject::Int(2));
}

#[test]
fn test_of_names_the_builtin_tests() {
    assert_eq!(map_test(&table_with_test(QEQ)), LispObject::Symbol(QEQ));
    assert_eq!(map_test(&table_with_test(QEQL)), LispObject::Symbol(QEQL));
    assert_eq!(map_test(&table_with_test(QEQUAL)), LispObject::Symbol(QEQUAL));
}

#[test]
fn rehash_numbers_never_vary() {
    let tables = [
        LispHashTable::new(),
        table_with_test(QEQUAL),
        make_hash_map(
            &[LispObject::Symbol(QCWEAKNESS), LispObject::Symbol(QT)],
            &HashTestRegistry::new(),
        )
        .unwrap(),
    ];
    for table in tables.iter() {
        assert_eq!(f64::from_bits(map_rehash_size(table)), 0.5);
        assert_eq!(f64::from_bits(map_rehash_threshold(table)), 0.8125);
    }
}

#[test]
fn options_apply_in_order() {
    let args = [
        LispObject::Symbol(QCTEST),
        LispObject::Symbol(QEQ),
        LispObject::Symbol(QCTEST),
        LispObject::Symbol(QEQUAL),
        LispObject::Symbol(QCWEAKNESS),
        LispObject::Symbol(QKEY),
        LispObject::Symbol(QCWEAKNESS),
        LispObject::Nil,
    ];
    let table = make_hash_map(&args, &HashTestRegistry::new()).unwrap();
    assert_eq!(map_test(&table), LispObject::Symbol(QEQUAL));
    assert_eq!(table.weakness(), Weakness::Strong);
}

#[test]
fn weakness_option_sets_the_marker() {
    let cases = [
        (LispObject::Nil, LispObject::Nil, Weakness::Strong),
        (LispObject::Symbol(QT), LispObject::Symbol(QKEY_AND_VALUE), Weakness::KeyAndValue),
        (LispObject::Symbol(QKEY), LispObject::Symbol(QKEY), Weakness::Key),
        (LispObject::Symbol(QVALUE), LispObject::Symbol(QVALUE), Weakness::Value),
        (
            LispObject::Symbol(QKEY_AND_VALUE),
            LispObject::Symbol(QKEY_AND_VALUE),
            Weakness::KeyAndValue,
        ),
    ];
    for (given, marker, weakness) in cases.iter() {
        let args = [LispObject::Symbol(QCWEAKNESS), given.clone()];
        let table = make_hash_map(&args, &HashTestRegistry::new()).unwrap();
        assert_eq!(&table.get_weak(), marker);
        assert_eq!(&table.weakness(), weakness);
    }
}

#[test]
fn purecopy_option_goes_by_its_value() {
    let yes = make_hash_map(
        &[LispObject::Symbol(QCPURECOPY), LispObject::Symbol(QT)],
        &HashTestRegistry::new(),
    )
    .unwrap();
    assert!(yes.is_pure());
    let no = make_hash_map(
        &[LispObject::Symbol(QCPURECOPY), LispObject::Nil],
        &HashTestRegistry::new(),
    )
    .unwrap();
    assert!(!no.is_pure());
}

#[test]
fn unknown_keywords_are_ignored() {
    let args = [LispObject::Symbol(9999), LispObject::Int(1)];
    let table = make_hash_map(&args, &HashTestRegistry::new()).unwrap();
    assert_eq!(map_test(&table), LispObject::Symbol(QEQ));
    assert_eq!(table.weakness(), Weakness::Strong);
    assert!(!table.is_pure());
}

#[test]
fn no_options_give_the_default_table() {
    let table = make_hash_map(&[], &HashTestRegistry::new()).unwrap();
    assert_eq!(map_test(&table), LispObject::Symbol(QEQ));
    assert_eq!(map_count(&table), LispObject::Int(0));
}

#[test]
fn odd_option_list_is_malformed() {
    let args = [LispObject::Symbol(QCTEST)];
    assert_eq!(
        make_hash_map(&args, &HashTestRegistry::new()).err(),
        Some(HashTableError::MalformedArguments)
    );
    let args = [
        LispObject::Symbol(QCTEST),
        LispObject::Symbol(QEQUAL),
        LispObject::Symbol(QCSIZE),
    ];
    assert_eq!(
        make_hash_map(&args, &HashTestRegistry::new()).err(),
        Some(HashTableError::MalformedArguments)
    );
}

#[test]
fn the_first_bad_option_decides_the_error() {
    let args = [
        LispObject::Symbol(QCTEST),
        LispObject::Symbol(4242),
        LispObject::Symbol(QCSIZE),
    ];
    assert_eq!(
        make_hash_map(&args, &HashTestRegistry::new()).err(),
        Some(HashTableError::UnknownTest)
    );
}

#[test]
fn size_must_be_a_natural_number() {
    for bad in [LispObject::Int(-1), LispObject::Nil, string_at(1, "8"), float_at(2, 8.0)] {
        let args = [LispObject::Symbol(QCSIZE), bad];
        assert_eq!(
            make_hash_map(&args, &HashTestRegistry::new()).err(),
            Some(HashTableError::InvalidSize)
        );
    }
    for good in [0i64, 8, 65536, 65537, i64::MAX] {
        let args = [LispObject::Symbol(QCSIZE), LispObject::Int(good)];
        assert!(make_hash_map(&args, &HashTestRegistry::new()).is_ok());
    }
}

#[test]
fn equal_lists_are_one_key_under_the_structural_test() {
    let list_at = |base: u64| {
        LispObject::cons(
            Cell { pure: false, addr: base },
            string_at(base + 1, "a"),
            LispObject::cons(
                Cell { pure: false, addr: base + 2 },
                LispObject::Int(2),
                LispObject::Nil,
            ),
        )
    };
    let mut table = table_with_test(QEQUAL);
    map_put(&mut table, list_at(10), LispObject::Int(1), &no_host);
    map_put(&mut table, list_at(20), LispObject::Int(2), &no_host);
    assert_eq!(map_count(&table), LispObject::Int(1));
    assert_eq!(map_get(&table, list_at(30), &no_host), LispObject::Int(2));
    let mut table = table_with_test(QEQL);
    map_put(&mut table, list_at(10), LispObject::Int(1), &no_host);
    map_put(&mut table, list_at(20), LispObject::Int(2), &no_host);
    assert_eq!(map_count(&table), LispObject::Int(2));
    assert_eq!(map_get(&table, list_at(10), &no_host), LispObject::Int(1));
    assert_eq!(map_get(&table, list_at(30), &no_host), LispObject::Nil);
}

#[test]
fn many_keys_in_one_table() {
    let mut table = table_with_test(QEQ);
    for i in 0..2000i64 {
        map_put(&mut table, LispObject::Int(i), LispObject::Int(i * 2), &no_host);
    }
    assert_eq!(map_count(&table), LispObject::Int(2000));
    for i in 0..2000i64 {
        assert_eq!(map_get(&table, LispObject::Int(i), &no_host), LispObject::Int(i * 2));
    }
    for i in (0..2000i64).step_by(2) {
        map_rm(&mut table, LispObject::Int(i), &no_host);
    }
    assert_eq!(map_count(&table), LispObject::Int(1000));
    assert_eq!(map_get(&table, LispObject::Int(10), &no_host), LispObject::Nil);
    assert_eq!(map_get(&table, LispObject::Int(11), &no_host), LispObject::Int(22));
}
