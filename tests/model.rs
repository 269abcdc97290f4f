use brinedb::dialect::{
    batches_as_unit_for, close_hook_sql, lookup_head_sql, session_setup_sql, upsert_head_sql,
    upsert_tail_sql,
};
use brinedb::migration::{pending_steps, step_script_sql, version_name};
use brinedb::orm::collect_found;
use brinedb::rows::{complete_lookup, distinct_keys, value_found, value_from_rows};
use brinedb::target::{backend_for, starts_with, Backend};

fn strings(items: &[&str]) -> Vec<String> {
    items.iter().map(|s| s.to_string()).collect()
}

#[test]
fn scheme_prefix_selects_the_backend() {
    assert_eq!(backend_for("postgres://u@h/db"), Some(Backend::Postgres));
    assert_eq!(backend_for("postgresql://u@h/db"), Some(Backend::Postgres));
    assert_eq!(backend_for("mysql://u@h/db"), Some(Backend::Mysql));
    assert_eq!(backend_for("sqlite://:memory:"), Some(Backend::Sqlite));
    assert_eq!(backend_for("redis://h"), None);
    assert_eq!(backend_for(""), None);
    assert_eq!(backend_for("SQLITE://x"), None);
}

#[test]
fn prefix_test_is_exact() {
    assert!(starts_with("sqlite", "sqlite"));
    assert!(starts_with("abc", ""));
    assert!(!starts_with("sql", "sqlite"));
    assert!(!starts_with("xsqlite", "sqlite"));
}

#[test]
fn upsert_conflict_clause_differs_by_family() {
    assert_eq!(
        upsert_tail_sql(Backend::Sqlite),
        ") ON CONFLICT (\"key\") DO UPDATE SET \"value\" = excluded.\"value\""
    );
    assert_eq!(upsert_tail_sql(Backend::Postgres), upsert_tail_sql(Backend::Sqlite));
    assert_eq!(
        upsert_tail_sql(Backend::Mysql),
        ") ON DUPLICATE KEY UPDATE `value` = VALUES(`value`)"
    );
    assert_eq!(upsert_head_sql(Backend::Mysql), "INSERT INTO `brine` (`key`, `value`) VALUES (");
    assert_eq!(lookup_head_sql(Backend::Postgres), "SELECT \"value\" FROM \"brine\" WHERE \"key\" = ");
}

#[test]
fn close_hook_and_session_settings_by_backend() {
    assert_eq!(close_hook_sql(Backend::Postgres), "VACUUM");
    assert_eq!(close_hook_sql(Backend::Mysql), "OPTIMIZE TABLE `brine`");
    assert_eq!(close_hook_sql(Backend::Sqlite), "PRAGMA optimize");
    assert_eq!(
        session_setup_sql(Backend::Sqlite),
        Some("PRAGMA journal_mode=WAL; PRAGMA synchronous=normal;")
    );
    assert_eq!(session_setup_sql(Backend::Postgres), None);
    assert!(batches_as_unit_for(Backend::Postgres));
    assert!(!batches_as_unit_for(Backend::Sqlite));
}

#[test]
fn pending_steps_follow_the_record() {
    assert_eq!(pending_steps(&Vec::new()), vec![0, 1]);
    assert_eq!(pending_steps(&strings(&["m20220101_000001_create_table"])), vec![1]);
    assert_eq!(pending_steps(&strings(&["m20240407_192852_add_indexes"])), vec![0]);
    assert_eq!(
        pending_steps(&strings(&["m20240407_192852_add_indexes", "m20220101_000001_create_table"])),
        Vec::<usize>::new()
    );
    assert_eq!(pending_steps(&strings(&["unrelated"])), vec![0, 1]);
}

#[test]
fn step_script_records_its_version_in_one_transaction() {
    assert_eq!(version_name(0), "m20220101_000001_create_table");
    assert_eq!(
        step_script_sql(Backend::Sqlite, 1),
        "BEGIN; CREATE INDEX IF NOT EXISTS \"idx_key\" ON \"brine\" (\"key\"); \
         INSERT INTO brine_migrations (version) VALUES ('m20240407_192852_add_indexes'); COMMIT;"
    );
}

#[test]
fn point_read_takes_the_first_row() {
    assert_eq!(value_from_rows(vec![Some("a".to_string()), Some("b".to_string())]), Some("a".to_string()));
    assert_eq!(value_from_rows(vec![None]), None);
    assert_eq!(value_from_rows(Vec::new()), None);
}

#[test]
fn distinct_keys_keep_first_occurrences() {
    assert_eq!(distinct_keys(&strings(&["b", "a", "b", "c", "a"])), strings(&["b", "a", "c"]));
    assert_eq!(distinct_keys(&Vec::new()), Vec::<String>::new());
}

#[test]
fn later_found_row_wins() {
    let found = vec![
        ("k".to_string(), "old".to_string()),
        ("j".to_string(), "x".to_string()),
        ("k".to_string(), "new".to_string()),
    ];
    assert_eq!(value_found(&found, &"k".to_string()), Some("new".to_string()));
    assert_eq!(value_found(&found, &"z".to_string()), None);
}

#[test]
fn completed_lookup_lists_every_key_once() {
    let found = vec![("k1".to_string(), "v1".to_string()), ("k3".to_string(), "v3".to_string())];
    assert_eq!(
        complete_lookup(&strings(&["k1", "k2", "k3", "k2"]), &found),
        vec![
            ("k1".to_string(), Some("v1".to_string())),
            ("k2".to_string(), None),
            ("k3".to_string(), Some("v3".to_string())),
        ]
    );
}

#[test]
fn collect_found_keeps_keys_whose_read_found_a_value() {
    let wanted = strings(&["a", "b", "c"]);
    let answers = vec![
        vec![Some("1".to_string())],
        Vec::new(),
        vec![None, Some("ignored".to_string())],
    ];
    assert_eq!(collect_found(&wanted, answers), vec![("a".to_string(), "1".to_string())]);
}
