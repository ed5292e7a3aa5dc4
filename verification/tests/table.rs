use rust_roguelike::entity::Entity;
use rust_roguelike::table::Table;

#[test]
fn table_rows_keep_their_order() {
    let mut t: Table<i64> = Table::new();
    assert_eq!(t.len(), 0);
    t.upsert(5, 50);
    t.upsert(2, 20);
    t.upsert(9, 90);
    t.upsert(2, 21);
    assert_eq!(t.len(), 3);
    assert_eq!((t.key_at(0), *t.value_at(0)), (5, 50));
    assert_eq!((t.key_at(1), *t.value_at(1)), (2, 21));
    assert_eq!((t.key_at(2), *t.value_at(2)), (9, 90));
    assert_eq!(t.position(9), Some(2));
    assert_eq!(t.position(7), None);
    assert_eq!(t.get(2), Some(&21));
    assert_eq!(t.get(3), None);
    assert!(t.contains(5) && !t.contains(6));
}

#[test]
fn table_remove_and_replace() {
    let mut t: Table<i64> = Table::new();
    for k in 1..=4 {
        t.upsert(k, k * 10);
    }
    assert!(t.remove(2));
    assert!(!t.remove(2));
    assert!(!t.remove(8));
    assert_eq!(
        t.entries(),
        vec![(Entity { id: 1 }, 10), (Entity { id: 3 }, 30), (Entity { id: 4 }, 40)]
    );
    t.set_value_at(1, 31);
    assert_eq!(t.get(3), Some(&31));
    t.replace_values(vec![7, 8, 9]);
    assert_eq!(
        t.entries(),
        vec![(Entity { id: 1 }, 7), (Entity { id: 3 }, 8), (Entity { id: 4 }, 9)]
    );
    let copy = t.duplicate();
    t.remove(1);
    assert_eq!(copy.len(), 3);
    assert_eq!(t.len(), 2);
    assert_eq!(copy.get(1), Some(&7));
}
