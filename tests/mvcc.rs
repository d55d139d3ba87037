use autograd::mvcc::{TableStore, Transaction, MVCC};

fn rows(db: &MVCC) -> Vec<(u32, String)> {
    let t = db.table();
    (0..t.len()).map(|i| t.row(i)).collect()
}

#[test]
fn set_inserts_then_renames() {
    let mut db = MVCC::new(TableStore::new());
    let t1 = db.begin_transaction();
    t1.set(&mut db, 1, "Alice".to_string());
    t1.set(&mut db, 2, "Bob".to_string());
    t1.set(&mut db, 1, "Alicia".to_string());
    assert_eq!(rows(&db), vec![(1, "Alicia".to_string()), (2, "Bob".to_string())]);
    assert_eq!(t1.get(&db, 1), Some("Alicia".to_string()));
    assert_eq!(t1.get(&db, 3), None);
}

#[test]
fn delete_removes_rows_of_the_id() {
    let mut db = MVCC::new(TableStore::new());
    let t1 = db.begin_transaction();
    t1.set(&mut db, 1, "Alice".to_string());
    t1.set(&mut db, 2, "Bob".to_string());
    t1.set(&mut db, 3, "Charlie".to_string());
    let t2 = db.begin_transaction();
    t2.delete(&mut db, 2);
    assert_eq!(rows(&db), vec![(1, "Alice".to_string()), (3, "Charlie".to_string())]);
    assert_eq!(t2.get(&db, 2), None);
}

#[test]
fn versions_count_up_and_end_on_commit_or_rollback() {
    let mut db = MVCC::new(TableStore::new());
    let t1 = db.begin_transaction();
    let t2 = Transaction::begin(&mut db);
    t1.set(&mut db, 7, "x".to_string());
    t1.commit(&mut db);
    t2.rollback(&mut db);
    let t3 = db.begin_transaction();
    assert_eq!(t3.get(&db, 7), Some("x".to_string()));
}
