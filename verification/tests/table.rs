use sv2_tx_generator::table::Table;
use sv2_tx_generator::types::{contains, same_script, OutPoint, Txid};

fn id(n: u8) -> Txid {
    Txid { bytes: [n; 32] }
}

#[test]
fn a_table_holds_the_last_value_of_a_key() {
    let mut table: Table<Txid, u8> = Table::new();
    assert!(table.is_empty());
    assert_eq!(table.get(&id(1)), None);
    table.insert(id(1), 10);
    table.insert(id(2), 20);
    table.insert(id(1), 11);
    assert!(!table.is_empty());
    assert_eq!(table.get(&id(1)), Some(&11));
    assert_eq!(table.get(&id(2)), Some(&20));
    assert!(table.contains_key(&id(2)));
    assert!(!table.contains_key(&id(3)));
}

#[test]
fn a_table_forgets_what_is_not_kept() {
    let mut table: Table<Txid, u8> = Table::new();
    for n in 0..10 {
        table.insert(id(n), n);
    }
    table.retain(&vec![id(3), id(12), id(7), id(3)]);
    for n in 0..10 {
        assert_eq!(table.contains_key(&id(n)), n == 3 || n == 7);
    }
    assert!(!table.contains_key(&id(12)));
    table.clear();
    assert!(table.is_empty());
}

#[test]
fn ids_that_differ_in_one_byte_differ() {
    let mut other = id(1);
    other.bytes[31] = 2;
    let list = vec![OutPoint { txid: id(1), vout: 0 }];
    assert!(contains(&list, &OutPoint { txid: id(1), vout: 0 }));
    assert!(!contains(&list, &OutPoint { txid: other, vout: 0 }));
    assert!(!contains(&list, &OutPoint { txid: id(1), vout: 1 }));
}

#[test]
fn scripts_are_equal_byte_by_byte() {
    assert!(same_script(&vec![], &vec![]));
    assert!(same_script(&vec![1, 2], &vec![1, 2]));
    assert!(!same_script(&vec![1, 2], &vec![1, 3]));
    assert!(!same_script(&vec![1, 2], &vec![1, 2, 3]));
}
