use deoxys_core::store::{Column, Store, WriteBatch};

#[test]
fn put_and_get_by_column() {
    let mut s = Store::new();
    s.put(Column::SyncedMapping, vec![1, 2], vec![9]);
    assert_eq!(s.get(Column::SyncedMapping, &vec![1, 2]), Some(vec![9]));
    assert_eq!(s.get(Column::BlockMapping, &vec![1, 2]), None);
    s.put(Column::SyncedMapping, vec![1, 2], vec![8]);
    assert_eq!(s.get(Column::SyncedMapping, &vec![1, 2]), Some(vec![8]));
}

#[test]
fn batch_applies_in_order() {
    let mut s = Store::new();
    let mut b = WriteBatch::new();
    b.put(Column::TransactionMapping, vec![1], vec![1]);
    b.put(Column::TransactionMapping, vec![1], vec![2]);
    b.put(Column::BlockMapping, vec![3], vec![3]);
    assert_eq!(s.get(Column::TransactionMapping, &vec![1]), None);
    s.write(b);
    assert_eq!(s.get(Column::TransactionMapping, &vec![1]), Some(vec![2]));
    assert_eq!(s.get(Column::BlockMapping, &vec![3]), Some(vec![3]));
}
