use classy_sync::argument_parser::{CollectionType, SelectSyncOptions};
use classy_sync::compile::{compile_record, CompiledSql};
use classy_sync::config::SyncConfig;
use classy_sync::errors::{ConflictKind, DataStoreError, SyncError};
use classy_sync::ident::is_valid_column_name;
use classy_sync::scalar::{to_sql_param, Scalar, SqlParam};
use classy_sync::storage::check_row_count;
use classy_sync::sync_requests::{
    ClassDataSync, CommonTable, SelectSync, SyncAction, TableName, DEFAULT_MAX_RECORDS,
};

#[test]
fn identifier_pattern_accepts_plain_names_only() {
    assert!(is_valid_column_name("course_id"));
    assert!(is_valid_column_name("Year2024"));
    assert!(is_valid_column_name("_hidden"));
    assert!(!is_valid_column_name(""));
    assert!(!is_valid_column_name("name; DROP TABLE x"));
    assert!(!is_valid_column_name("with space"));
    assert!(!is_valid_column_name("dash-ed"));
    assert!(!is_valid_column_name("caf\u{e9}"));
}

#[test]
fn table_names_have_fixed_sql_spellings() {
    assert_eq!(TableName::MeetingTimes.sql_name(), "meeting_times");
    assert_eq!(TableName::Sections.sql_name(), "sections");
    assert_eq!(TableName::Professors.sql_name(), "professors");
    assert_eq!(TableName::Courses.sql_name(), "courses");
    assert_eq!(TableName::TermCollections.sql_name(), "term_collections");
    assert_eq!(TableName::Schools.sql_name(), "schools");
    assert_eq!(CommonTable::Courses.sql_name(), "courses");
}

#[test]
fn update_compiles_set_then_where_with_positional_parameters() {
    let record = ClassDataSync {
        table_name: TableName::Sections,
        sync_action: SyncAction::Update,
        pk_fields: vec![
            ("id".to_string(), Scalar::Text("sec-9".to_string())),
            ("course_id".to_string(), Scalar::Text("c-1".to_string())),
        ],
        relevant_fields: Some(vec![
            ("max_enrollment".to_string(), Scalar::Integer(30)),
            ("instruction_method".to_string(), Scalar::Null),
        ]),
    };
    let CompiledSql { sql, params } = compile_record(&record).expect("an update with changes");
    assert_eq!(
        sql,
        "UPDATE sections SET max_enrollment = ?, instruction_method = ? WHERE id = ? AND course_id = ?;"
    );
    assert_eq!(params.len(), 4);
    assert!(matches!(params[0], SqlParam::Integer(30)));
    assert!(matches!(params[1], SqlParam::Null));
    assert!(matches!(params[2], SqlParam::Text(ref t) if t == "sec-9"));
    assert!(matches!(params[3], SqlParam::Text(ref t) if t == "c-1"));
}

#[test]
fn delete_compiles_where_from_key_fields_only() {
    let record = ClassDataSync {
        table_name: TableName::Courses,
        sync_action: SyncAction::Delete,
        pk_fields: vec![("id".to_string(), Scalar::Text("c-7".to_string()))],
        relevant_fields: Some(vec![("title".to_string(), Scalar::Text("x".to_string()))]),
    };
    let CompiledSql { sql, params } = compile_record(&record).expect("a delete compiles");
    assert_eq!(sql, "DELETE FROM courses WHERE id = ?;");
    assert_eq!(params.len(), 1);
}

#[test]
fn insert_compiles_key_fields_then_changed_fields() {
    let record = ClassDataSync {
        table_name: TableName::Schools,
        sync_action: SyncAction::Insert,
        pk_fields: vec![("id".to_string(), Scalar::Text("marist".to_string()))],
        relevant_fields: Some(vec![
            ("name".to_string(), Scalar::Text("Marist".to_string())),
        ]),
    };
    let CompiledSql { sql, params } = compile_record(&record).expect("an insert compiles");
    assert_eq!(sql, "INSERT INTO schools (id, name) VALUES (?, ?);");
    assert_eq!(params.len(), 2);
}

#[test]
fn noop_update_compiles_to_nothing() {
    let absent = ClassDataSync {
        table_name: TableName::Sections,
        sync_action: SyncAction::Update,
        pk_fields: vec![("id".to_string(), Scalar::Text("s".to_string()))],
        relevant_fields: None,
    };
    assert!(compile_record(&absent).is_none());
    let empty = ClassDataSync {
        table_name: TableName::Sections,
        sync_action: SyncAction::Update,
        pk_fields: vec![("id".to_string(), Scalar::Text("s".to_string()))],
        relevant_fields: Some(vec![]),
    };
    assert!(compile_record(&empty).is_none());
}

#[test]
fn scalars_map_to_parameters_exactly() {
    assert!(matches!(to_sql_param(&Scalar::Null), SqlParam::Null));
    assert!(matches!(to_sql_param(&Scalar::Boolean(true)), SqlParam::Integer(1)));
    assert!(matches!(to_sql_param(&Scalar::Boolean(false)), SqlParam::Integer(0)));
    assert!(matches!(to_sql_param(&Scalar::Integer(-4)), SqlParam::Integer(-4)));
    assert!(matches!(
        to_sql_param(&Scalar::Text("t".to_string())),
        SqlParam::Text(ref t) if t == "t"
    ));
    let real = Scalar::Real(rusqlite::types::Value::Real(2.5));
    assert!(matches!(
        to_sql_param(&real),
        SqlParam::Real(rusqlite::types::Value::Real(x)) if x == 2.5
    ));
}

#[test]
fn record_with_no_key_fields_is_invalid() {
    let record = ClassDataSync {
        table_name: TableName::Sections,
        sync_action: SyncAction::Insert,
        pk_fields: vec![],
        relevant_fields: Some(vec![("a".to_string(), Scalar::Integer(1))]),
    };
    match record.verify_record() {
        Err(DataStoreError::InputValidation { invalid_values, .. }) => {
            assert!(invalid_values.is_empty());
        }
        other => panic!("expected an input-validation error, got {:?}", other),
    }
}

#[test]
fn verify_record_names_every_offending_column() {
    let record = ClassDataSync {
        table_name: TableName::Sections,
        sync_action: SyncAction::Update,
        pk_fields: vec![("bad key".to_string(), Scalar::Integer(1))],
        relevant_fields: Some(vec![
            ("fine".to_string(), Scalar::Integer(2)),
            ("bad;value".to_string(), Scalar::Integer(3)),
        ]),
    };
    match record.verify_record() {
        Err(DataStoreError::InputValidation { invalid_values, record: carried, .. }) => {
            assert_eq!(invalid_values, vec!["bad key".to_string(), "bad;value".to_string()]);
            assert!(carried.is_some());
        }
        other => panic!("expected an input-validation error, got {:?}", other),
    }
}

#[test]
fn strict_row_count_mismatch_carries_the_statement() {
    match check_row_count(0, true, "DELETE FROM sections WHERE id = ?;".to_string()) {
        Err(DataStoreError::RowCountMismatch { query, result, expected }) => {
            assert_eq!(query, "DELETE FROM sections WHERE id = ?;");
            assert_eq!(result, 0);
            assert_eq!(expected, 1);
        }
        other => panic!("expected a row-count mismatch, got {:?}", other),
    }
    assert!(check_row_count(1, true, String::new()).is_ok());
    assert!(check_row_count(3, false, String::new()).is_ok());
}

#[test]
fn select_sync_builder_tracks_schools_terms_and_exclusions() {
    let mut sel = SelectSync::new();
    assert_eq!(sel.get_max_records(), Some(DEFAULT_MAX_RECORDS));
    sel.add_school_sync("temple".to_string(), 12).expect("first school");
    match sel.add_school_sync("temple".to_string(), 15) {
        Err(DataStoreError::StateConflict { kind, .. }) => {
            assert_eq!(kind, ConflictKind::DuplicateSchool);
        }
        other => panic!("expected a duplicate-school conflict, got {:?}", other),
    }
    sel.add_term_sync("marist".to_string(), "202440".to_string(), 7).expect("first term");
    match sel.add_term_sync("marist".to_string(), "202440".to_string(), 7) {
        Err(DataStoreError::StateConflict { kind, .. }) => {
            assert_eq!(kind, ConflictKind::DuplicateTerm);
        }
        other => panic!("expected a duplicate-term conflict, got {:?}", other),
    }
    match sel.add_term_sync("temple".to_string(), "202440".to_string(), 7) {
        Err(DataStoreError::StateConflict { kind, .. }) => {
            assert_eq!(kind, ConflictKind::DuplicateSchool);
        }
        other => panic!("expected a duplicate-school conflict, got {:?}", other),
    }
    sel.add_exclusion("marist".to_string(), "202340".to_string(), 3).expect("an exclusion");
    match sel.add_exclusion("marist".to_string(), "202340".to_string(), 3) {
        Err(DataStoreError::StateConflict { kind, .. }) => {
            assert_eq!(kind, ConflictKind::DuplicateExclusion);
        }
        other => panic!("expected a duplicate-exclusion conflict, got {:?}", other),
    }
    assert_eq!(sel.get_schools().len(), 2);
    assert_eq!(sel.get_exclusions().len(), 1);
}

#[test]
fn selection_strings_parse_into_schools_and_terms() {
    let opts = SelectSyncOptions::from_input("marist;temple,202422".to_string())
        .expect("a well-formed selection parses");
    let list = &opts.school_to_collection;
    assert_eq!(list.len(), 2);
    assert_eq!(list[0].0, "marist");
    assert!(matches!(list[0].1, CollectionType::AllSchoolData));
    assert_eq!(list[1].0, "temple");
    match &list[1].1 {
        CollectionType::SelectTermData(ts) => assert_eq!(ts, &vec!["202422".to_string()]),
        CollectionType::AllSchoolData => panic!("expected a term selection"),
    }

    let opts = SelectSyncOptions::from_input("marist, all".to_string())
        .expect("the literal token parses");
    assert!(matches!(
        opts.school_to_collection[0].1,
        CollectionType::AllSchoolData
    ));

    let opts = SelectSyncOptions::from_input("marist,202440, 202540;".to_string())
        .expect("several terms and a trailing separator parse");
    match &opts.school_to_collection[0].1 {
        CollectionType::SelectTermData(ts) => {
            assert_eq!(ts, &vec!["202440".to_string(), "202540".to_string()]);
        }
        CollectionType::AllSchoolData => panic!("expected a term selection"),
    }

    assert!(SelectSyncOptions::from_input(",202440".to_string()).is_err());
    assert!(SelectSyncOptions::from_input("marist,202440,,".to_string()).is_err());
}

#[test]
fn selection_builders_narrow_and_merge() {
    let mut opts = SelectSyncOptions::new();
    assert!(opts.add_school("marist"));
    assert!(!opts.add_school("marist"));
    // narrowing a whole-school selection to one term replaces it
    opts.add_term("marist", "202440");
    match &opts.school_to_collection[0].1 {
        CollectionType::SelectTermData(ts) => assert_eq!(ts, &vec!["202440".to_string()]),
        CollectionType::AllSchoolData => panic!("expected the selection to narrow"),
    }
    opts.add_term("marist", "202540");
    opts.add_term("marist", "202540");
    match &opts.school_to_collection[0].1 {
        CollectionType::SelectTermData(ts) => {
            assert_eq!(ts, &vec!["202440".to_string(), "202540".to_string()]);
        }
        CollectionType::AllSchoolData => panic!("expected a term selection"),
    }
}

#[test]
fn sync_config_builds_the_two_endpoints() {
    let config = SyncConfig::default();
    assert_eq!(config.uri, "http://localhost:3000");
    assert_eq!(SyncConfig::default().get_sync_all(), "http://localhost:3000/sync/all");
    assert_eq!(
        SyncConfig { uri: "http://host".to_string() }.get_sync_select(),
        "http://host/sync/schools"
    );
}

#[test]
fn sync_error_keeps_its_message() {
    let e = SyncError::new("transport failed");
    assert_eq!(e.message(), "transport failed");
}
