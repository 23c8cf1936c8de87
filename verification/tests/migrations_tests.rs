use demail::migrations::{
    apply_migrations, get_current_version, initialize_schema, migrations,
    rollback_last_migration, SchemaItem, SchemaState,
};

#[test]
fn test_get_current_version_empty_db() {
    let state = SchemaState::new();
    let version = get_current_version(&state).unwrap();
    assert_eq!(version, 0);
}

#[test]
fn test_apply_migrations() {
    let mut state = SchemaState::new();

    initialize_schema(&mut state);

    apply_migrations(&mut state, 1_700_000_000).unwrap();

    let version = get_current_version(&state).unwrap();
    assert!(version >= 1);
}

#[test]
fn test_migration_idempotency() {
    let mut state = SchemaState::new();

    initialize_schema(&mut state);

    apply_migrations(&mut state, 1_700_000_000).unwrap();
    apply_migrations(&mut state, 1_700_000_500).unwrap();

    let version = get_current_version(&state).unwrap();
    assert!(version >= 1);
}

#[test]
fn migrating_twice_changes_nothing() {
    let mut state = SchemaState::new();
    apply_migrations(&mut state, 100).unwrap();
    assert_eq!(get_current_version(&state).unwrap(), 3);
    let once: Vec<(i64, String, i64, bool)> = state
        .ledger()
        .iter()
        .map(|r| (r.version, r.description.clone(), r.applied_at, r.applied))
        .collect();
    assert_eq!(
        once,
        vec![
            (1, "Initial schema".to_string(), 100, true),
            (2, "Add starring and threading".to_string(), 100, true),
            (3, "Add contacts table".to_string(), 100, true),
        ]
    );

    apply_migrations(&mut state, 200).unwrap();
    let twice: Vec<(i64, String, i64, bool)> = state
        .ledger()
        .iter()
        .map(|r| (r.version, r.description.clone(), r.applied_at, r.applied))
        .collect();
    assert_eq!(once, twice);
    assert_eq!(get_current_version(&state).unwrap(), 3);
}

#[test]
fn migrations_bring_their_objects() {
    let mut state = SchemaState::new();
    assert!(!state.has(SchemaItem::MigrationsTable));
    assert!(!state.has(SchemaItem::ContactsTable));
    apply_migrations(&mut state, 1).unwrap();
    assert!(state.has(SchemaItem::MigrationsTable));
    assert!(state.has(SchemaItem::ThreadsTable));
    assert!(state.has(SchemaItem::MessagesIsStarredColumn));
    assert!(state.has(SchemaItem::ContactsTable));
    assert!(state.has(SchemaItem::ContactsLastUsedIndex));
    assert!(!state.has(SchemaItem::AccountsTable));
    initialize_schema(&mut state);
    assert!(state.has(SchemaItem::AccountsTable));
    assert!(state.has(SchemaItem::MessagesTextIndex));
}

#[test]
fn the_migrations_rise_from_one() {
    let list = migrations();
    assert_eq!(list.len(), 3);
    assert_eq!(list[0].version, 1);
    assert_eq!(list[1].version, 2);
    assert_eq!(list[2].version, 3);
    assert!(list[0].items.contains(&SchemaItem::MigrationsTable));
}

#[test]
fn the_ledger_alone_gives_no_version() {
    let mut state = SchemaState::new();
    initialize_schema(&mut state);
    assert_eq!(get_current_version(&state).unwrap(), 0);
}

#[test]
fn rollback_takes_the_last_version_back() {
    let mut state = SchemaState::new();
    assert!(rollback_last_migration(&mut state).is_err());
    apply_migrations(&mut state, 10).unwrap();
    rollback_last_migration(&mut state).unwrap();
    assert_eq!(get_current_version(&state).unwrap(), 2);
    assert!(state.has(SchemaItem::ContactsTable));
    // the migration that was taken back is applied again
    apply_migrations(&mut state, 20).unwrap();
    assert_eq!(get_current_version(&state).unwrap(), 3);
    assert_eq!(state.ledger().len(), 3);
    assert_eq!(state.ledger()[2].applied_at, 20);
    assert_eq!(state.ledger()[0].applied_at, 10);
}
