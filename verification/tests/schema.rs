use manga_reader_engine::schema::{all_migrations, latest_version, list_migrations, pending_migrations, schema_version_after};

#[test]
fn migrations_in_order() {
    assert_eq!(latest_version(), 3);
    assert_eq!(list_migrations(), vec![(1, "v1__initial"), (2, "v2__chapters"), (3, "v3__search_triggers")]);
    assert_eq!(all_migrations().len(), 3);
}

#[test]
fn pending_after_a_version() {
    let pending: Vec<i64> = pending_migrations(1).iter().map(|m| m.version).collect();
    assert_eq!(pending, vec![2, 3]);
    assert!(pending_migrations(3).is_empty());
    assert_eq!(pending_migrations(0).len(), 3);
    assert_eq!(schema_version_after(0), 3);
    assert_eq!(schema_version_after(5), 5);
}
