use workany::migration::{apply, changesets, Changeset, Engine, MigrationError, StatementOutcome};

fn successes(n: usize) -> Vec<StatementOutcome> {
    let mut v = Vec::new();
    for _ in 0..n {
        v.push(StatementOutcome::Success);
    }
    v
}

#[test]
fn fresh_store_bootstrap_records_all_versions() {
    let report = apply(Vec::new(), changesets(), &successes(5));
    assert_eq!(report.ledger, vec![1, 2, 3, 4, 5]);
    assert!(report.outcome.is_ok());
}

#[test]
fn second_apply_is_a_noop() {
    let first = apply(Vec::new(), changesets(), &successes(5));
    assert!(first.outcome.is_ok());
    let second = apply(first.ledger.clone(), changesets(), &successes(5));
    assert!(second.outcome.is_ok());
    assert_eq!(second.ledger, first.ledger);
    assert_eq!(second.ledger, vec![1, 2, 3, 4, 5]);
}

#[test]
fn store_at_version_three_applies_only_four_then_five() {
    let report = apply(vec![1, 2, 3], changesets(), &successes(2));
    assert!(report.outcome.is_ok());
    assert_eq!(report.ledger, vec![1, 2, 3, 4, 5]);
}

#[test]
fn sparse_changeset_list_applies_in_ascending_order() {
    let cs = vec![
        Changeset {
            version: 4,
            description: String::from("add_archive_table"),
            statements: vec![String::from("CREATE TABLE IF NOT EXISTS archive (id TEXT)")],
        },
        Changeset {
            version: 5,
            description: String::from("add_archive_index"),
            statements: vec![String::from("CREATE INDEX IF NOT EXISTS idx_archive ON archive(id)")],
        },
    ];
    let report = apply(vec![3], cs, &successes(2));
    assert!(report.outcome.is_ok());
    assert_eq!(report.ledger, vec![3, 4, 5]);
}

#[test]
fn failed_changeset_is_not_recorded_and_retry_completes() {
    let mut outcomes = vec![StatementOutcome::Success];
    outcomes.push(StatementOutcome::Failure(String::from("table messages already exists")));
    let report = apply(Vec::new(), changesets(), &outcomes);
    assert_eq!(report.ledger, vec![1]);
    match report.outcome {
        Err(MigrationError::StatementFailed { version, cause }) => {
            assert_eq!(version, 2);
            assert_eq!(cause, "table messages already exists");
        }
        other => panic!("expected StatementFailed, got {:?}", other.is_ok()),
    }
    let retry = apply(report.ledger, changesets(), &successes(4));
    assert!(retry.outcome.is_ok());
    assert_eq!(retry.ledger, vec![1, 2, 3, 4, 5]);
}

#[test]
fn racing_apply_completes_from_a_partial_ledger() {
    // A losing racer may observe the winner's ledger at any point; the
    // store's locking serialises the two runs. Observing it after two
    // changesets, the loser still ends at the final version with no
    // duplicate records.
    let report = apply(vec![1, 2], changesets(), &successes(3));
    assert!(report.outcome.is_ok());
    assert_eq!(report.ledger, vec![1, 2, 3, 4, 5]);
}

#[test]
fn ledger_above_known_versions_is_refused() {
    let report = apply(vec![1, 2, 3, 4, 5, 6], changesets(), &successes(0));
    assert_eq!(report.ledger, vec![1, 2, 3, 4, 5, 6]);
    match report.outcome {
        Err(MigrationError::LedgerCorrupt { recorded, max_known }) => {
            assert_eq!(recorded, 6);
            assert_eq!(max_known, 5);
        }
        _ => panic!("expected LedgerCorrupt"),
    }
}

#[test]
fn changeset_list_is_the_known_schema_history() {
    let cs = changesets();
    assert_eq!(cs.len(), 5);
    let versions: Vec<u64> = cs.iter().map(|c| c.version).collect();
    assert_eq!(versions, vec![1, 2, 3, 4, 5]);
    assert_eq!(cs[0].description, "create_tasks_and_messages_tables");
    assert_eq!(cs[1].description, "add_tool_result_fields");
    assert_eq!(cs[2].description, "create_files_table");
    assert_eq!(cs[3].description, "create_settings_table");
    assert_eq!(cs[4].description, "create_sessions_table_and_update_tasks");
}

#[test]
fn schema_declares_the_five_tables_and_indexes() {
    let cs = changesets();
    let all: Vec<&String> = cs.iter().flat_map(|c| c.statements.iter()).collect();
    for table in ["tasks", "messages", "files", "settings", "sessions"] {
        assert!(
            all.iter().any(|s| s.contains(&format!("CREATE TABLE IF NOT EXISTS {} ", table))),
            "missing table {}",
            table
        );
    }
    for index in ["idx_messages_task_id", "idx_files_task_id", "idx_tasks_session_id"] {
        assert!(all.iter().any(|s| s.contains(index)), "missing index {}", index);
    }
}

#[test]
fn referencing_tables_declare_cascade_delete() {
    let cs = changesets();
    let messages = &cs[0].statements[1];
    assert!(messages.contains("FOREIGN KEY (task_id) REFERENCES tasks(id) ON DELETE CASCADE"));
    let files = &cs[2].statements[0];
    assert!(files.contains("FOREIGN KEY (task_id) REFERENCES tasks(id) ON DELETE CASCADE"));
}

#[test]
fn engine_hands_out_pending_changesets_in_order() {
    let mut eng = Engine::new(vec![1, 2], changesets());
    assert!(eng.corruption_error().is_none());
    assert!(!eng.is_complete());
    let v = eng.next_changeset().map(|c| c.version);
    assert_eq!(v, Some(3));
    eng.record_applied();
    let v = eng.next_changeset().map(|c| c.version);
    assert_eq!(v, Some(4));
    eng.record_applied();
    let v = eng.next_changeset().map(|c| c.version);
    assert_eq!(v, Some(5));
    eng.record_applied();
    assert!(eng.is_complete());
    assert_eq!(eng.into_ledger(), vec![1, 2, 3, 4, 5]);
}

#[test]
fn engine_failure_stops_the_run_and_keeps_the_ledger() {
    let mut eng = Engine::new(Vec::new(), changesets());
    assert!(eng.corruption_error().is_none());
    let e = eng.record_failure(String::from("disk full"));
    match e {
        MigrationError::StatementFailed { version, cause } => {
            assert_eq!(version, 1);
            assert_eq!(cause, "disk full");
        }
        _ => panic!("expected StatementFailed"),
    }
    assert!(!eng.is_complete());
    assert_eq!(eng.into_ledger(), Vec::<u64>::new());
}
