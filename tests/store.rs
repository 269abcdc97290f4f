use brinedb::db::BrineDB;
use brinedb::error::BrineError;
use brinedb::orm::DieselBrine;
use brinedb::target::Backend;

const MEMORY: &str = "sqlite://:memory:";

fn open_store() -> BrineDB {
    let mut db = BrineDB::new(MEMORY.to_string());
    assert_eq!(db.connect(), Ok(true));
    db
}

#[test]
fn set_then_get_returns_the_value() {
    let mut db = open_store();
    db.set("k".to_string(), "v".to_string()).unwrap();
    assert_eq!(db.get("k".to_string()), Ok(Some("v".to_string())));
}

#[test]
fn keys_are_case_sensitive_and_not_trimmed() {
    let mut db = open_store();
    db.set("Key".to_string(), "upper".to_string()).unwrap();
    db.set(" key".to_string(), "spaced".to_string()).unwrap();
    assert_eq!(db.get("key".to_string()), Ok(None));
    assert_eq!(db.get("Key".to_string()), Ok(Some("upper".to_string())));
    assert_eq!(db.get(" key".to_string()), Ok(Some("spaced".to_string())));
}

#[test]
fn second_set_overwrites_and_keeps_one_row() {
    let mut db = open_store();
    db.set("k".to_string(), "v1".to_string()).unwrap();
    db.set("k".to_string(), "v2".to_string()).unwrap();
    assert_eq!(db.get("k".to_string()), Ok(Some("v2".to_string())));
    assert_eq!(db.count(), Ok(1));
}

#[test]
fn empty_value_is_stored_not_absent() {
    let mut db = open_store();
    db.set("k".to_string(), String::new()).unwrap();
    assert_eq!(db.get("k".to_string()), Ok(Some(String::new())));
    assert_eq!(db.has("k".to_string()), Ok(true));
}

#[test]
fn deleting_an_absent_key_is_a_no_op() {
    let mut db = open_store();
    db.set("other".to_string(), "x".to_string()).unwrap();
    assert_eq!(db.delete("missing".to_string()), Ok(()));
    assert_eq!(db.get("missing".to_string()), Ok(None));
    assert_eq!(db.count(), Ok(1));
}

#[test]
fn get_many_marks_missing_keys_absent() {
    let mut db = open_store();
    db.set("k1".to_string(), "v1".to_string()).unwrap();
    db.set("k3".to_string(), "v3".to_string()).unwrap();
    let got = db
        .get_many(vec!["k1".to_string(), "k2".to_string(), "k3".to_string()])
        .unwrap();
    assert_eq!(
        got,
        vec![
            ("k1".to_string(), Some("v1".to_string())),
            ("k2".to_string(), None),
            ("k3".to_string(), Some("v3".to_string())),
        ]
    );
}

#[test]
fn get_many_reports_a_repeated_key_once() {
    let mut db = open_store();
    db.set("a".to_string(), "1".to_string()).unwrap();
    let got = db
        .get_many(vec!["a".to_string(), "b".to_string(), "a".to_string()])
        .unwrap();
    assert_eq!(got, vec![("a".to_string(), Some("1".to_string())), ("b".to_string(), None)]);
}

#[test]
fn get_many_of_no_keys_is_empty() {
    let mut db = open_store();
    assert_eq!(db.get_many(Vec::new()), Ok(Vec::new()));
}

#[test]
fn clear_empties_the_store() {
    let mut db = open_store();
    db.set_many(vec![("a".to_string(), "1".to_string()), ("b".to_string(), "2".to_string())])
        .unwrap();
    db.clear().unwrap();
    assert_eq!(db.count(), Ok(0));
    assert_eq!(db.keys(), Ok(Vec::new()));
    assert_eq!(db.values(), Ok(Vec::new()));
}

#[test]
fn operations_after_close_are_not_connected() {
    let mut db = open_store();
    assert_eq!(db.close(), Ok(()));
    assert_eq!(db.get("k".to_string()), Err(BrineError::NotConnected));
    assert_eq!(db.set("k".to_string(), "v".to_string()), Err(BrineError::NotConnected));
    assert_eq!(db.count(), Err(BrineError::NotConnected));
    assert_eq!(db.has("k".to_string()), Err(BrineError::NotConnected));
    assert_eq!(db.migrate(), Err(BrineError::NotConnected));
    assert_eq!(db.close(), Ok(()));
    assert_eq!(db.close(), Ok(()));
}

#[test]
fn operations_before_connect_are_not_connected() {
    let mut db = BrineDB::new(MEMORY.to_string());
    assert_eq!(db.keys(), Err(BrineError::NotConnected));
    assert_eq!(db.delete_many(vec!["k".to_string()]), Err(BrineError::NotConnected));
    assert_eq!(db.close(), Ok(()));
}

#[test]
fn switching_target_does_not_see_old_rows() {
    let mut db = open_store();
    db.set("old".to_string(), "row".to_string()).unwrap();
    db.connection_uri = "sqlite://:memory:?cache=private".to_string();
    assert_eq!(db.connect(), Ok(true));
    assert_eq!(db.get("old".to_string()), Ok(None));
    assert_eq!(db.count(), Ok(0));
}

#[test]
fn connecting_again_to_the_same_target_reuses_the_connection() {
    let mut db = open_store();
    db.set("kept".to_string(), "yes".to_string()).unwrap();
    assert_eq!(db.connect(), Ok(true));
    assert_eq!(db.get("kept".to_string()), Ok(Some("yes".to_string())));
}

#[test]
fn migrations_run_twice_apply_nothing_the_second_time() {
    let mut brine = DieselBrine::new();
    brine.connect(MEMORY).unwrap();
    assert_eq!(brine.run_migrations(), Ok(2));
    brine.set("k".to_string(), "v".to_string()).unwrap();
    assert_eq!(brine.run_migrations(), Ok(0));
    assert_eq!(brine.get("k".to_string()), Ok(Some("v".to_string())));
}

#[test]
fn set_many_then_get_many_round_trips() {
    let mut db = open_store();
    db.set_many(vec![("k1".to_string(), "v1".to_string()), ("k2".to_string(), "v2".to_string())])
        .unwrap();
    assert_eq!(
        db.get_many(vec!["k1".to_string(), "k2".to_string()]),
        Ok(vec![
            ("k1".to_string(), Some("v1".to_string())),
            ("k2".to_string(), Some("v2".to_string())),
        ])
    );
}

#[test]
fn set_many_applies_pairs_in_order() {
    let mut db = open_store();
    db.set_many(vec![("k".to_string(), "first".to_string()), ("k".to_string(), "last".to_string())])
        .unwrap();
    assert_eq!(db.get("k".to_string()), Ok(Some("last".to_string())));
    assert_eq!(db.count(), Ok(1));
}

#[test]
fn delete_many_ignores_absent_keys() {
    let mut db = open_store();
    db.set_many(vec![("a".to_string(), "1".to_string()), ("b".to_string(), "2".to_string())])
        .unwrap();
    db.delete_many(vec!["a".to_string(), "zzz".to_string()]).unwrap();
    assert_eq!(db.keys(), Ok(vec!["b".to_string()]));
}

#[test]
fn has_is_false_for_an_absent_key() {
    let mut db = open_store();
    assert_eq!(db.has("nothing".to_string()), Ok(false));
}

#[test]
fn unknown_scheme_is_unsupported() {
    let mut db = BrineDB::new("redis://localhost".to_string());
    assert_eq!(db.connect(), Err(BrineError::UnsupportedBackend));
    assert_eq!(db.get("k".to_string()), Err(BrineError::NotConnected));
}

#[test]
fn mysql_scheme_reports_missing_driver() {
    let mut brine = DieselBrine::new();
    assert_eq!(
        brine.connect("mysql://user@localhost/db"),
        Err(BrineError::DriverUnavailable(Backend::Mysql))
    );
    assert!(!brine.is_connected());
}

#[test]
fn unusable_target_closes_the_live_connection() {
    let mut brine = DieselBrine::new();
    brine.connect(MEMORY).unwrap();
    brine.run_migrations().unwrap();
    assert_eq!(brine.connect("ftp://host"), Err(BrineError::UnsupportedBackend));
    assert!(!brine.is_connected());
    assert_eq!(brine.count(), Err(BrineError::NotConnected));
}

#[test]
fn empty_batches_succeed() {
    let mut brine = DieselBrine::new();
    brine.connect(MEMORY).unwrap();
    brine.run_migrations().unwrap();
    assert_eq!(brine.set_many(Vec::new()), Ok(()));
    assert_eq!(brine.get_many(Vec::new()), Ok(Vec::new()));
    assert_eq!(brine.delete_many(Vec::new()), Ok(()));
}

#[test]
fn get_many_on_the_manager_keeps_found_rows_in_request_order() {
    let mut brine = DieselBrine::new();
    brine.connect(MEMORY).unwrap();
    brine.run_migrations().unwrap();
    brine.set("b".to_string(), "2".to_string()).unwrap();
    brine.set("a".to_string(), "1".to_string()).unwrap();
    assert_eq!(
        brine.get_many(vec!["b".to_string(), "x".to_string(), "a".to_string(), "b".to_string()]),
        Ok(vec![("b".to_string(), "2".to_string()), ("a".to_string(), "1".to_string())])
    );
}

#[test]
fn count_follows_writes_and_deletes() {
    let mut db = open_store();
    db.set_many(vec![("a".to_string(), "1".to_string()), ("b".to_string(), "2".to_string())])
        .unwrap();
    db.set("a".to_string(), "3".to_string()).unwrap();
    assert_eq!(db.count(), Ok(2));
    db.delete("a".to_string()).unwrap();
    assert_eq!(db.count(), Ok(1));
    assert_eq!(db.values(), Ok(vec!["2".to_string()]));
}

#[test]
fn unreachable_server_leaves_the_manager_unconnected() {
    let mut brine = DieselBrine::new();
    brine.connect(MEMORY).unwrap();
    let r = brine.connect("postgres://nobody@127.0.0.1:1/none");
    assert!(matches!(r, Err(BrineError::Connect(_))));
    assert!(!brine.is_connected());
    assert_eq!(brine.get("k".to_string()), Err(BrineError::NotConnected));
}

#[test]
fn statement_before_migration_is_a_backend_error() {
    let mut brine = DieselBrine::new();
    brine.connect(MEMORY).unwrap();
    assert!(matches!(brine.get("k".to_string()), Err(BrineError::Backend(_))));
    assert!(matches!(brine.has("k".to_string()), Err(BrineError::Backend(_))));
}

#[test]
fn count_of_a_fresh_store_is_zero() {
    let mut db = open_store();
    assert_eq!(db.count(), Ok(0));
    assert_eq!(db.keys(), Ok(Vec::new()));
}
