use tcr::table::{Key, Table};

#[test]
fn empty_table_holds_no_key() {
    let table: Table<u32, u64> = Table::new();
    assert!(!table.contains_key(&0));
    assert_eq!(table.get(&0), None);
}

#[test]
fn insert_files_and_replaces() {
    let mut table: Table<u32, u64> = Table::new();
    table.insert(3, 30);
    table.insert(4, 40);
    assert_eq!(table.get(&3), Some(&30));
    assert_eq!(table.get(&4), Some(&40));
    table.insert(3, 31);
    assert_eq!(table.get(&3), Some(&31));
    assert_eq!(table.get(&4), Some(&40));
    assert!(!table.contains_key(&5));
}

#[test]
fn remove_hands_the_value_back() {
    let mut table: Table<(u32, u64), bool> = Table::new();
    table.insert((1, 2), true);
    table.insert((1, 3), false);
    table.insert((2, 2), true);
    assert_eq!(table.remove(&(1, 3)), Some(false));
    assert_eq!(table.remove(&(1, 3)), None);
    assert!(table.contains_key(&(1, 2)));
    assert!(table.contains_key(&(2, 2)));
    assert!(!table.contains_key(&(1, 3)));
    assert_eq!(table.remove(&(9, 9)), None);
}

#[test]
fn keys_compare_by_value() {
    assert!(7u32.same(&7));
    assert!(!7u32.same(&8));
    assert!(7u64.same(&7));
    assert!(!(1u32, 2u64).same(&(1, 3)));
    assert!(!(1u32, 2u64).same(&(2, 2)));
    assert!((1u32, 2u64).same(&(1, 2)));
    assert!((5u64, 6u64).same(&(5, 6)));
    assert!(!(5u64, 6u64).same(&(6, 5)));
    let a: [u8; 32] = [1; 32];
    let mut b: [u8; 32] = [1; 32];
    assert!(a.same(&b));
    b[31] = 2;
    assert!(!a.same(&b));
    b[31] = 1;
    b[0] = 0;
    assert!(!a.same(&b));
}

#[test]
fn hashes_key_a_table() {
    let mut table: Table<[u8; 32], u64> = Table::new();
    let mut one: [u8; 32] = [0; 32];
    let mut two: [u8; 32] = [0; 32];
    one[31] = 1;
    two[31] = 2;
    table.insert(one, 1);
    table.insert(two, 2);
    assert_eq!(table.get(&one), Some(&1));
    assert_eq!(table.get(&two), Some(&2));
    assert_eq!(table.get(&[0; 32]), None);
}
