use classy_sync::argument_parser::{CollectionType, SelectSyncOptions, SyncResources};
use classy_sync::errors::{ConflictKind, DataStoreError, IntegrityKind};
use classy_sync::scalar::Scalar;
use classy_sync::storage::{Sqlite, SqliteConfig};
use classy_sync::sync_requests::{
    AllSyncResult, ClassDataSync, School, SchoolEntry, SyncAction, SyncOptions, TableName, Term,
    TermSyncResult,
};

const SCHEMA: &str = "
    CREATE TABLE _previous_all_collections (synced_at INTEGER NOT NULL);
    CREATE TABLE _school_strategies (school_id TEXT NOT NULL, term_collection_id TEXT);
    CREATE TABLE _previous_school_collections (synced_at INTEGER NOT NULL, school_id TEXT NOT NULL);
    CREATE TABLE _previous_term_collections (synced_at INTEGER NOT NULL, school_id TEXT NOT NULL, term_collection_id TEXT NOT NULL);
    CREATE TABLE schools (id TEXT PRIMARY KEY, name TEXT);
    CREATE TABLE terms (id TEXT, school_id TEXT, year INTEGER, season TEXT, name TEXT, still_collecting INTEGER);
    CREATE TABLE sections (id TEXT PRIMARY KEY, course_id TEXT, max_enrollment INTEGER, instruction_method TEXT);
    CREATE TABLE courses (id TEXT PRIMARY KEY, title TEXT, credit_hours REAL);
    CREATE TABLE professors (id TEXT PRIMARY KEY, name TEXT, email TEXT);
    CREATE TABLE meeting_times (id TEXT PRIMARY KEY, section_id TEXT, start_minutes INTEGER);
    CREATE TABLE term_collections (id TEXT PRIMARY KEY, school_id TEXT, year INTEGER);
";

fn fresh_store(strict: bool) -> Sqlite {
    let conn = rusqlite::Connection::open_in_memory().expect("open in-memory database");
    conn.execute_batch(SCHEMA).expect("provision schema");
    Sqlite::new(
        conn,
        SqliteConfig { db_path: None, is_strict: strict, max_records_for_syncs: 10_000 },
    )
}

fn term_selection(school: &str, terms: &[&str]) -> SelectSyncOptions {
    SelectSyncOptions {
        school_to_collection: vec![(
            school.to_string(),
            CollectionType::SelectTermData(terms.iter().map(|t| t.to_string()).collect()),
        )],
    }
}

fn whole_school_selection(school: &str) -> SelectSyncOptions {
    SelectSyncOptions {
        school_to_collection: vec![(school.to_string(), CollectionType::AllSchoolData)],
    }
}

fn insert_record(table: TableName, id: &str) -> ClassDataSync {
    ClassDataSync {
        table_name: table,
        sync_action: SyncAction::Insert,
        pk_fields: vec![("id".to_string(), Scalar::Text(id.to_string()))],
        relevant_fields: None,
    }
}

#[test]
fn fresh_everything_generates_all_request_from_zero() {
    let mut store = fresh_store(true);
    store
        .set_request_sync_resources(SyncResources::Everything)
        .expect("setting everything on a fresh store succeeds");
    match store.generate_sync_options().expect("a strategy is set") {
        SyncOptions::All(all) => {
            assert_eq!(all.last_sync, 0);
            assert_eq!(all.max_records_count, Some(10_000));
        }
        SyncOptions::Select(_) => panic!("expected an all-mode request"),
    }
}

#[test]
fn applying_all_result_advances_the_watermark() {
    let mut store = fresh_store(true);
    store
        .set_request_sync_resources(SyncResources::Everything)
        .expect("setting everything succeeds");
    let payload = AllSyncResult {
        new_latest_sync: 6303,
        sync_data: vec![insert_record(TableName::Schools, "marist")],
        has_more: false,
    };
    store.execute_all_request_sync(payload).expect("the batch applies");
    match store.generate_sync_options().expect("a strategy is set") {
        SyncOptions::All(all) => assert_eq!(all.last_sync, 6303),
        SyncOptions::Select(_) => panic!("expected an all-mode request"),
    }
}

#[test]
fn fresh_term_scope_generates_select_request_from_zero() {
    let mut store = fresh_store(true);
    store
        .set_request_sync_resources(SyncResources::Select(term_selection("marist", &["202440"])))
        .expect("registering a term scope succeeds");
    match store.generate_sync_options().expect("a strategy is set") {
        SyncOptions::Select(sel) => {
            assert_eq!(sel.get_max_records(), Some(10_000));
            assert!(sel.get_exclusions().is_empty());
            let schools = sel.get_schools();
            assert_eq!(schools.len(), 1);
            assert_eq!(schools[0].0, "marist");
            match &schools[0].1 {
                SchoolEntry::TermToSequence(ts) => {
                    assert_eq!(ts.len(), 1);
                    assert_eq!(ts[0], ("202440".to_string(), 0));
                }
                SchoolEntry::Sequence(_) => panic!("expected a term entry"),
            }
        }
        SyncOptions::All(_) => panic!("expected a select request"),
    }
}

#[test]
fn advancing_one_term_and_registering_another_keeps_both() {
    let mut store = fresh_store(true);
    store
        .set_request_sync_resources(SyncResources::Select(term_selection("marist", &["202440"])))
        .expect("registering the first term succeeds");
    let payload = TermSyncResult {
        new_sync_term_sequences: vec![(
            "marist".to_string(),
            SchoolEntry::TermToSequence(vec![("202440".to_string(), 6929)]),
        )],
        sync_data: vec![],
        any_has_more: false,
    };
    store
        .execute_select_request_sync(classy_sync::sync_requests::SelectSync::new(), payload)
        .expect("the select batch applies");
    store
        .set_request_sync_resources(SyncResources::Select(term_selection("marist", &["202540"])))
        .expect("registering the second term succeeds");
    match store.generate_sync_options().expect("a strategy is set") {
        SyncOptions::Select(sel) => {
            assert!(sel.get_exclusions().is_empty());
            let schools = sel.get_schools();
            assert_eq!(schools.len(), 1);
            assert_eq!(schools[0].0, "marist");
            match &schools[0].1 {
                SchoolEntry::TermToSequence(ts) => {
                    let mut pairs = ts.clone();
                    pairs.sort();
                    assert_eq!(
                        pairs,
                        vec![("202440".to_string(), 6929), ("202540".to_string(), 0)]
                    );
                }
                SchoolEntry::Sequence(_) => panic!("expected term entries"),
            }
        }
        SyncOptions::All(_) => panic!("expected a select request"),
    }
}

#[test]
fn everything_while_scopes_registered_is_a_conflict_without_mutation() {
    let mut store = fresh_store(true);
    store
        .set_request_sync_resources(SyncResources::Select(term_selection("marist", &["202440"])))
        .expect("registering a term scope succeeds");
    match store.set_request_sync_resources(SyncResources::Everything) {
        Err(DataStoreError::StateConflict { kind, .. }) => {
            assert_eq!(kind, ConflictKind::SelectModeActive);
        }
        other => panic!("expected a state conflict, got {:?}", other),
    }
    match store.generate_sync_options().expect("a strategy is still set") {
        SyncOptions::Select(sel) => {
            assert_eq!(sel.get_schools().len(), 1);
        }
        SyncOptions::All(_) => panic!("the select strategy must be untouched"),
    }
}

#[test]
fn injection_shaped_key_field_is_rejected_before_any_statement() {
    let record = ClassDataSync {
        table_name: TableName::Sections,
        sync_action: SyncAction::Delete,
        pk_fields: vec![(
            "name; DROP TABLE x".to_string(),
            Scalar::Text("whatever".to_string()),
        )],
        relevant_fields: None,
    };
    match record.verify_record() {
        Err(DataStoreError::InputValidation { invalid_values, .. }) => {
            assert_eq!(invalid_values, vec!["name; DROP TABLE x".to_string()]);
        }
        other => panic!("expected an input-validation error, got {:?}", other),
    }
    // compiling never happens: applying the batch reports the same error and
    // the batch leaves the store untouched
    let mut store = fresh_store(true);
    store
        .set_request_sync_resources(SyncResources::Everything)
        .expect("setting everything succeeds");
    let payload = AllSyncResult { new_latest_sync: 9, sync_data: vec![record], has_more: false };
    match store.execute_all_request_sync(payload) {
        Err(DataStoreError::InputValidation { .. }) => {}
        other => panic!("expected an input-validation error, got {:?}", other),
    }
    match store.generate_sync_options().expect("a strategy is set") {
        SyncOptions::All(all) => assert_eq!(all.last_sync, 0),
        SyncOptions::Select(_) => panic!("expected an all-mode request"),
    }
}

#[test]
fn update_without_changed_fields_succeeds_doing_nothing() {
    let mut store = fresh_store(true);
    store
        .set_request_sync_resources(SyncResources::Everything)
        .expect("setting everything succeeds");
    let record = ClassDataSync {
        table_name: TableName::Sections,
        sync_action: SyncAction::Update,
        pk_fields: vec![("id".to_string(), Scalar::Text("sec-1".to_string()))],
        relevant_fields: None,
    };
    let payload = AllSyncResult { new_latest_sync: 4, sync_data: vec![record], has_more: false };
    store.execute_all_request_sync(payload).expect("a no-op update is not an error");
}

#[test]
fn strict_mode_rolls_back_the_whole_batch_on_row_count_mismatch() {
    let mut store = fresh_store(true);
    store
        .set_request_sync_resources(SyncResources::Everything)
        .expect("setting everything succeeds");
    let insert = ClassDataSync {
        table_name: TableName::Schools,
        sync_action: SyncAction::Insert,
        pk_fields: vec![("id".to_string(), Scalar::Text("marist".to_string()))],
        relevant_fields: Some(vec![("name".to_string(), Scalar::Text("Marist".to_string()))]),
    };
    let hopeless_delete = ClassDataSync {
        table_name: TableName::Sections,
        sync_action: SyncAction::Delete,
        pk_fields: vec![("id".to_string(), Scalar::Text("absent".to_string()))],
        relevant_fields: None,
    };
    let payload = AllSyncResult {
        new_latest_sync: 77,
        sync_data: vec![insert, hopeless_delete],
        has_more: false,
    };
    match store.execute_all_request_sync(payload) {
        Err(DataStoreError::RowCountMismatch { result, expected, .. }) => {
            assert_eq!(result, 0);
            assert_eq!(expected, 1);
        }
        other => panic!("expected a row-count mismatch, got {:?}", other),
    }
    // the earlier insert of the same batch is rolled back, and so is the
    // watermark advance
    let conn = store.into_connection();
    let schools: i64 = conn
        .query_row("SELECT COUNT(*) FROM schools;", (), |row| row.get(0))
        .expect("count schools");
    assert_eq!(schools, 0);
    let marks: i64 = conn
        .query_row("SELECT COUNT(*) FROM _previous_all_collections;", (), |row| row.get(0))
        .expect("count watermarks");
    assert_eq!(marks, 1, "only the initial zero watermark remains");
}

#[test]
fn lenient_mode_tolerates_unexpected_row_counts() {
    let mut store = fresh_store(false);
    store
        .set_request_sync_resources(SyncResources::Everything)
        .expect("setting everything succeeds");
    let hopeless_delete = ClassDataSync {
        table_name: TableName::Sections,
        sync_action: SyncAction::Delete,
        pk_fields: vec![("id".to_string(), Scalar::Text("absent".to_string()))],
        relevant_fields: None,
    };
    let payload =
        AllSyncResult { new_latest_sync: 5, sync_data: vec![hopeless_delete], has_more: false };
    store.execute_all_request_sync(payload).expect("lenient mode logs and goes on");
}

#[test]
fn term_selection_for_fully_covered_school_is_a_conflict_without_mutation() {
    let mut store = fresh_store(true);
    store
        .set_request_sync_resources(SyncResources::Select(whole_school_selection("marist")))
        .expect("registering the whole school succeeds");
    match store.set_request_sync_resources(SyncResources::Select(term_selection(
        "marist",
        &["202440"],
    ))) {
        Err(DataStoreError::StateConflict { kind, .. }) => {
            assert_eq!(kind, ConflictKind::SchoolFullyCovered);
        }
        other => panic!("expected a state conflict, got {:?}", other),
    }
    match store.generate_sync_options().expect("a strategy is still set") {
        SyncOptions::Select(sel) => {
            let schools = sel.get_schools();
            assert_eq!(schools.len(), 1);
            assert_eq!(schools[0].0, "marist");
            match &schools[0].1 {
                SchoolEntry::Sequence(seq) => assert_eq!(*seq, 0),
                SchoolEntry::TermToSequence(_) => panic!("the whole-school entry must remain"),
            }
        }
        SyncOptions::All(_) => panic!("expected a select request"),
    }
}

#[test]
fn granularity_transition_emits_the_term_as_an_exclusion() {
    let mut store = fresh_store(true);
    store
        .set_request_sync_resources(SyncResources::Select(term_selection("marist", &["202440"])))
        .expect("registering a term scope succeeds");
    let payload = TermSyncResult {
        new_sync_term_sequences: vec![(
            "marist".to_string(),
            SchoolEntry::TermToSequence(vec![("202440".to_string(), 6929)]),
        )],
        sync_data: vec![],
        any_has_more: false,
    };
    store
        .execute_select_request_sync(classy_sync::sync_requests::SelectSync::new(), payload)
        .expect("the select batch applies");
    // the scope widens to the whole school: the term's watermark is now an
    // exclusion the remote side can use to skip data already known current
    store
        .set_request_sync_resources(SyncResources::Select(whole_school_selection("marist")))
        .expect("registering the whole school succeeds");
    match store.generate_sync_options().expect("a strategy is set") {
        SyncOptions::Select(sel) => {
            let schools = sel.get_schools();
            assert_eq!(schools.len(), 1);
            assert_eq!(schools[0].0, "marist");
            assert!(matches!(schools[0].1, SchoolEntry::Sequence(0)));
            let excl = sel.get_exclusions();
            assert_eq!(excl.len(), 1);
            assert_eq!(excl[0].0, "marist");
            assert_eq!(excl[0].1, vec![("202440".to_string(), 6929)]);
        }
        SyncOptions::All(_) => panic!("expected a select request"),
    }
}

#[test]
fn dirty_state_is_reported_when_both_kinds_of_evidence_exist() {
    let conn = rusqlite::Connection::open_in_memory().expect("open in-memory database");
    conn.execute_batch(SCHEMA).expect("provision schema");
    conn.execute("INSERT INTO _previous_all_collections (synced_at) VALUES (3);", ())
        .expect("plant all-mode evidence");
    conn.execute(
        "INSERT INTO _school_strategies (school_id, term_collection_id) VALUES ('x', NULL);",
        (),
    )
    .expect("plant select-mode evidence");
    let store = Sqlite::new(
        conn,
        SqliteConfig { db_path: None, is_strict: true, max_records_for_syncs: 10_000 },
    );
    match store.generate_sync_options() {
        Err(DataStoreError::DataIntegrity { kind, .. }) => {
            assert_eq!(kind, IntegrityKind::DirtyState);
        }
        other => panic!("expected a dirty-state error, got {:?}", other),
    }
}

#[test]
fn no_strategy_set_is_reported_on_a_fresh_store() {
    let store = fresh_store(true);
    match store.generate_sync_options() {
        Err(DataStoreError::DataIntegrity { kind, .. }) => {
            assert_eq!(kind, IntegrityKind::StrategyNotSet);
        }
        other => panic!("expected a strategy-not-set error, got {:?}", other),
    }
}

#[test]
fn setting_everything_twice_is_idempotent() {
    let mut store = fresh_store(true);
    store.set_request_sync_resources(SyncResources::Everything).expect("first set");
    store.set_request_sync_resources(SyncResources::Everything).expect("second set is a no-op");
    let conn = store.into_connection();
    let marks: i64 = conn
        .query_row("SELECT COUNT(*) FROM _previous_all_collections;", (), |row| row.get(0))
        .expect("count watermarks");
    assert_eq!(marks, 1);
}

#[test]
fn unsetting_everything_clears_the_global_watermarks() {
    let mut store = fresh_store(true);
    store.set_request_sync_resources(SyncResources::Everything).expect("set everything");
    store
        .unset_request_sync_resources(SyncResources::Everything)
        .expect("unset everything succeeds");
    match store.generate_sync_options() {
        Err(DataStoreError::DataIntegrity { kind, .. }) => {
            assert_eq!(kind, IntegrityKind::StrategyNotSet);
        }
        other => panic!("expected a strategy-not-set error, got {:?}", other),
    }
}

#[test]
fn catalog_rows_insert_atomically() {
    let mut store = fresh_store(true);
    store
        .add_schools(vec![
            School { id: "marist".to_string(), name: "Marist".to_string() },
            School { id: "temple".to_string(), name: "Temple".to_string() },
        ])
        .expect("schools insert");
    store
        .add_terms(vec![Term {
            id: "202440".to_string(),
            school_id: "marist".to_string(),
            year: 2024,
            season: "fall".to_string(),
            name: "Fall 2024".to_string(),
            still_collecting: false,
        }])
        .expect("terms insert");
    let conn = store.into_connection();
    let schools: i64 = conn
        .query_row("SELECT COUNT(*) FROM schools;", (), |row| row.get(0))
        .expect("count schools");
    assert_eq!(schools, 2);
    let season: String = conn
        .query_row("SELECT season FROM terms WHERE id = '202440';", (), |row| row.get(0))
        .expect("read term");
    assert_eq!(season, "fall");
}

#[test]
fn unsetting_a_term_scope_drops_its_watermark_history() {
    let mut store = fresh_store(true);
    store
        .set_request_sync_resources(SyncResources::Select(term_selection(
            "marist",
            &["202440", "202540"],
        )))
        .expect("registering two term scopes succeeds");
    let payload = TermSyncResult {
        new_sync_term_sequences: vec![(
            "marist".to_string(),
            SchoolEntry::TermToSequence(vec![
                ("202440".to_string(), 11),
                ("202540".to_string(), 22),
            ]),
        )],
        sync_data: vec![],
        any_has_more: false,
    };
    store
        .execute_select_request_sync(classy_sync::sync_requests::SelectSync::new(), payload)
        .expect("the select batch applies");
    store
        .unset_request_sync_resources(SyncResources::Select(term_selection("marist", &["202440"])))
        .expect("unregistering one term succeeds");
    match store.generate_sync_options().expect("a strategy is still set") {
        SyncOptions::Select(sel) => {
            let schools = sel.get_schools();
            assert_eq!(schools.len(), 1);
            match &schools[0].1 {
                SchoolEntry::TermToSequence(ts) => {
                    assert_eq!(ts, &vec![("202540".to_string(), 22)]);
                }
                SchoolEntry::Sequence(_) => panic!("expected term entries"),
            }
        }
        SyncOptions::All(_) => panic!("expected a select request"),
    }
}

#[test]
fn select_after_everything_is_a_conflict() {
    let mut store = fresh_store(true);
    store.set_request_sync_resources(SyncResources::Everything).expect("set everything");
    match store.set_request_sync_resources(SyncResources::Select(term_selection(
        "marist",
        &["202440"],
    ))) {
        Err(DataStoreError::StateConflict { kind, .. }) => {
            assert_eq!(kind, ConflictKind::AllModeActive);
        }
        other => panic!("expected a state conflict, got {:?}", other),
    }
}

#[test]
fn a_missing_schema_surfaces_as_a_query_error() {
    let conn = rusqlite::Connection::open_in_memory().expect("open in-memory database");
    // no schema is provisioned on purpose
    let store = Sqlite::new(
        conn,
        SqliteConfig { db_path: None, is_strict: true, max_records_for_syncs: 10_000 },
    );
    match store.generate_sync_options() {
        Err(DataStoreError::QueryExecution { .. }) => {}
        other => panic!("expected a query-execution error, got {:?}", other),
    }
}

#[test]
fn duplicate_scope_rows_are_a_data_integrity_fault() {
    let conn = rusqlite::Connection::open_in_memory().expect("open in-memory database");
    conn.execute_batch(SCHEMA).expect("provision schema");
    conn.execute_batch(
        "INSERT INTO _school_strategies (school_id, term_collection_id) VALUES ('marist', '202440');
         INSERT INTO _school_strategies (school_id, term_collection_id) VALUES ('marist', '202440');",
    )
    .expect("plant duplicate scope rows");
    let store = Sqlite::new(
        conn,
        SqliteConfig { db_path: None, is_strict: true, max_records_for_syncs: 10_000 },
    );
    match store.generate_sync_options() {
        Err(DataStoreError::DataIntegrity { kind, .. }) => {
            assert_eq!(kind, IntegrityKind::ConflictingRows);
        }
        other => panic!("expected a data-integrity fault, got {:?}", other),
    }
}

#[test]
fn an_open_transaction_is_discarded_when_the_store_wraps_the_connection() {
    let conn = rusqlite::Connection::open_in_memory().expect("open in-memory database");
    conn.execute_batch(SCHEMA).expect("provision schema");
    conn.execute_batch(
        "BEGIN; INSERT INTO _previous_all_collections (synced_at) VALUES (5);",
    )
    .expect("leave a transaction open with an uncommitted watermark");
    let store = Sqlite::new(
        conn,
        SqliteConfig { db_path: None, is_strict: true, max_records_for_syncs: 10_000 },
    );
    // the uncommitted watermark never becomes durable: the store settles the
    // connection and still reports no strategy set
    match store.generate_sync_options() {
        Err(DataStoreError::DataIntegrity { kind, .. }) => {
            assert_eq!(kind, IntegrityKind::StrategyNotSet);
        }
        other => panic!("expected a strategy-not-set error, got {:?}", other),
    }
}
