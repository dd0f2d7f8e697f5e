use chatalyst_core::migrate::{
    get_migrations, Migration, MigrationError, MigrationLedger, MIG01_DESC, MIG01_SQL, MIG12_DESC,
};

fn s(text: &str) -> String {
    text.to_string()
}

#[test]
fn test_get_migrations_shape() {
    let migs = get_migrations();
    assert_eq!(migs.len(), 12);
    for (i, m) in migs.iter().enumerate() {
        assert_eq!(m.version, i as i64 + 1);
        assert!(!m.description.is_empty());
        assert!(!m.sql.is_empty());
    }
    assert_eq!(migs[0].description, MIG01_DESC);
    assert_eq!(migs[0].description, "create_images_table");
    assert_eq!(migs[0].sql, MIG01_SQL);
    assert!(migs[0].sql.contains("CREATE TABLE images"));
    assert_eq!(migs[11].description, MIG12_DESC);
    assert_eq!(
        migs[11].description,
        "add_tool_fields_to_conversation_messages"
    );
}

#[test]
fn test_apply_pending_records_every_version_once() {
    let migs = get_migrations();
    let mut ledger = MigrationLedger::new();
    let applied = ledger.apply_pending(&migs, &s("startup-1")).unwrap();
    assert_eq!(applied, (1..=12).collect::<Vec<i64>>());
    assert_eq!(ledger.applied_count(), 12);
    let records = ledger.records();
    for (i, r) in records.iter().enumerate() {
        assert_eq!(r.version, i as i64 + 1);
        assert_eq!(r.applied_at, "startup-1");
    }
    assert_eq!(records[0].description, "create_images_table");
}

#[test]
fn test_apply_pending_twice_is_idempotent() {
    let migs = get_migrations();
    let mut ledger = MigrationLedger::new();
    ledger.apply_pending(&migs, &s("startup-1")).unwrap();
    // A second process start over the same ledger re-executes nothing.
    let applied = ledger.apply_pending(&migs, &s("startup-2")).unwrap();
    assert!(applied.is_empty());
    assert_eq!(ledger.applied_count(), 12);
    for (i, r) in ledger.records().iter().enumerate() {
        assert_eq!(r.version, i as i64 + 1);
        assert_eq!(r.applied_at, "startup-1");
    }
}

#[test]
fn test_apply_pending_resumes_after_partial_ledger() {
    let migs = get_migrations();
    let first_three: Vec<Migration> = get_migrations().into_iter().take(3).collect();
    let mut ledger = MigrationLedger::new();
    let applied = ledger.apply_pending(&first_three, &s("t1")).unwrap();
    assert_eq!(applied, vec![1, 2, 3]);
    let applied_rest = ledger.apply_pending(&migs, &s("t2")).unwrap();
    assert_eq!(applied_rest, (4..=12).collect::<Vec<i64>>());
    assert_eq!(ledger.applied_count(), 12);
    assert_eq!(ledger.records()[2].applied_at, "t1");
    assert_eq!(ledger.records()[3].applied_at, "t2");
}

#[test]
fn test_apply_pending_rejects_gap() {
    let mut migs = get_migrations();
    migs.remove(5);
    let mut ledger = MigrationLedger::new();
    let r = ledger.apply_pending(&migs, &s("t1"));
    assert_eq!(r.unwrap_err(), MigrationError::InvalidSequence);
    assert_eq!(ledger.applied_count(), 0);
}

#[test]
fn test_apply_pending_rejects_unknown_recorded_version() {
    let migs = get_migrations();
    let mut ledger = MigrationLedger::new();
    ledger.apply_pending(&migs, &s("t1")).unwrap();
    let truncated: Vec<Migration> = get_migrations().into_iter().take(3).collect();
    let r = ledger.apply_pending(&truncated, &s("t2"));
    assert_eq!(r.unwrap_err(), MigrationError::UnknownVersions);
    assert_eq!(ledger.applied_count(), 12);
}
