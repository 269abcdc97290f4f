//! The statements each backend family is addressed with.
//!
//! PostgreSQL and SQLite share the ANSI forms: double-quoted identifiers and
//! `ON CONFLICT .. DO UPDATE` taking the proposed row (`excluded`). MySQL
//! quotes with backticks and resolves conflicts with `ON DUPLICATE KEY UPDATE`.
//! A statement that takes bound values is given as the text before, between
//! and after them; the driver supplies each backend's placeholders.
use vstd::prelude::*;

use crate::target::Backend;

verus! {

/// One request handed to a backend: the statement's text pieces, with a
/// bound value between each two of them.
pub struct Request {
    pub text: Seq<Seq<char>>,
    pub binds: Seq<Seq<char>>,
}

/// The opening of a connection to the target `uri`.
pub open spec fn open_request(uri: Seq<char>) -> Request {
    Request { text: Seq::empty(), binds: seq![uri] }
}

/// A request of `sql` alone, with nothing bound.
pub open spec fn plain(sql: Seq<char>) -> Request {
    Request { text: seq![sql], binds: Seq::empty() }
}

/// Opens a transaction on every supported backend.
pub const BEGIN_SQL: &'static str = "BEGIN";

/// Commits the open transaction.
pub const COMMIT_SQL: &'static str = "COMMIT";

/// Abandons the open transaction.
pub const ROLLBACK_SQL: &'static str = "ROLLBACK";

/// Point read, before the bound key.
pub open spec fn lookup_head(b: Backend) -> Seq<char> {
    match b {
        Backend::Mysql => "SELECT `value` FROM `brine` WHERE `key` = "@,
        _ => "SELECT \"value\" FROM \"brine\" WHERE \"key\" = "@,
    }
}

/// Upsert, before the bound key.
pub open spec fn upsert_head(b: Backend) -> Seq<char> {
    match b {
        Backend::Mysql => "INSERT INTO `brine` (`key`, `value`) VALUES ("@,
        _ => "INSERT INTO \"brine\" (\"key\", \"value\") VALUES ("@,
    }
}

/// Upsert, between the bound key and the bound value.
pub open spec fn upsert_mid(b: Backend) -> Seq<char> {
    ", "@
}

/// Upsert, after the bound value: the conflict clause that makes the last
/// writer win, leaving one row per key.
pub open spec fn upsert_tail(b: Backend) -> Seq<char> {
    match b {
        Backend::Mysql => ") ON DUPLICATE KEY UPDATE `value` = VALUES(`value`)"@,
        _ => ") ON CONFLICT (\"key\") DO UPDATE SET \"value\" = excluded.\"value\""@,
    }
}

/// Delete of one key, before the bound key.
pub open spec fn delete_head(b: Backend) -> Seq<char> {
    match b {
        Backend::Mysql => "DELETE FROM `brine` WHERE `key` = "@,
        _ => "DELETE FROM \"brine\" WHERE \"key\" = "@,
    }
}

/// Existence check, before the bound key.
pub open spec fn exists_head(b: Backend) -> Seq<char> {
    match b {
        Backend::Mysql => "SELECT EXISTS (SELECT 1 FROM `brine` WHERE `key` = "@,
        _ => "SELECT EXISTS (SELECT 1 FROM \"brine\" WHERE \"key\" = "@,
    }
}

/// Existence check, after the bound key.
pub open spec fn exists_tail(b: Backend) -> Seq<char> {
    ")"@
}

/// Every key.
pub open spec fn keys_query(b: Backend) -> Seq<char> {
    match b {
        Backend::Mysql => "SELECT `key` FROM `brine`"@,
        _ => "SELECT \"key\" FROM \"brine\""@,
    }
}

/// Every value.
pub open spec fn values_query(b: Backend) -> Seq<char> {
    match b {
        Backend::Mysql => "SELECT `value` FROM `brine`"@,
        _ => "SELECT \"value\" FROM \"brine\""@,
    }
}

/// The number of rows.
pub open spec fn count_query(b: Backend) -> Seq<char> {
    match b {
        Backend::Mysql => "SELECT COUNT(*) FROM `brine`"@,
        _ => "SELECT COUNT(*) FROM \"brine\""@,
    }
}

/// Removes every row.
pub open spec fn clear_statement(b: Backend) -> Seq<char> {
    match b {
        Backend::Mysql => "DELETE FROM `brine`"@,
        _ => "DELETE FROM \"brine\""@,
    }
}

/// The storage-reclamation statement run when a connection is closed.
pub open spec fn close_hook(b: Backend) -> Seq<char> {
    match b {
        Backend::Postgres => "VACUUM"@,
        Backend::Mysql => "OPTIMIZE TABLE `brine`"@,
        Backend::Sqlite => "PRAGMA optimize"@,
    }
}

/// Session settings applied once the schema is current, where a backend
/// has any.
pub open spec fn session_setup(b: Backend) -> Option<Seq<char>> {
    match b {
        Backend::Sqlite => Some("PRAGMA journal_mode=WAL; PRAGMA synchronous=normal;"@),
        _ => None,
    }
}

/// Whether a batch write is applied as one unit (inside a transaction) or as
/// independent pair-wise upserts.
pub open spec fn batches_as_unit(b: Backend) -> bool {
    b == Backend::Postgres
}

/// A request of `head`, the value `a` bound, then `tail`.
pub open spec fn bound_one(head: Seq<char>, a: Seq<char>, tail: Seq<char>) -> Request {
    Request { text: seq![head, tail], binds: seq![a] }
}

/// A request of `head`, `a` bound, `mid`, `b` bound, then `tail`.
pub open spec fn bound_two(
    head: Seq<char>,
    a: Seq<char>,
    mid: Seq<char>,
    b: Seq<char>,
    tail: Seq<char>,
) -> Request {
    Request { text: seq![head, mid, tail], binds: seq![a, b] }
}

/// The point read of `k`.
pub open spec fn lookup_request(b: Backend, k: Seq<char>) -> Request {
    bound_one(lookup_head(b), k, ""@)
}

/// The upsert of `v` under `k`.
pub open spec fn upsert_request(b: Backend, k: Seq<char>, v: Seq<char>) -> Request {
    bound_two(upsert_head(b), k, upsert_mid(b), v, upsert_tail(b))
}

/// The delete of `k`.
pub open spec fn delete_request(b: Backend, k: Seq<char>) -> Request {
    bound_one(delete_head(b), k, ""@)
}

/// The existence check of `k`.
pub open spec fn exists_request(b: Backend, k: Seq<char>) -> Request {
    bound_one(exists_head(b), k, exists_tail(b))
}

/// The point reads of `keys`, in order.
pub open spec fn lookup_requests(b: Backend, keys: Seq<Seq<char>>) -> Seq<Request> {
    keys.map_values(|k: Seq<char>| lookup_request(b, k))
}

/// The deletes of `keys`, in order.
pub open spec fn delete_requests(b: Backend, keys: Seq<Seq<char>>) -> Seq<Request> {
    keys.map_values(|k: Seq<char>| delete_request(b, k))
}

/// The upserts of `pairs`, in order.
pub open spec fn upsert_requests(b: Backend, pairs: Seq<(String, String)>) -> Seq<Request> {
    pairs.map_values(|p: (String, String)| upsert_request(b, p.0@, p.1@))
}

/// What a batch write of `pairs` sends: nothing for no pairs; else the
/// upserts, wrapped in one transaction where the backend batches as a unit.
pub open spec fn batch_requests(b: Backend, pairs: Seq<(String, String)>) -> Seq<Request> {
    if pairs.len() == 0 {
        Seq::empty()
    } else if batches_as_unit(b) {
        seq![plain(BEGIN_SQL@)] + upsert_requests(b, pairs) + seq![plain(COMMIT_SQL@)]
    } else {
        upsert_requests(b, pairs)
    }
}

pub fn lookup_head_sql(b: Backend) -> (r: &'static str)
    ensures
        r@ == lookup_head(b),
{
    match b {
        Backend::Mysql => "SELECT `value` FROM `brine` WHERE `key` = ",
        _ => "SELECT \"value\" FROM \"brine\" WHERE \"key\" = ",
    }
}

pub fn upsert_head_sql(b: Backend) -> (r: &'static str)
    ensures
        r@ == upsert_head(b),
{
    match b {
        Backend::Mysql => "INSERT INTO `brine` (`key`, `value`) VALUES (",
        _ => "INSERT INTO \"brine\" (\"key\", \"value\") VALUES (",
    }
}

pub fn upsert_mid_sql(b: Backend) -> (r: &'static str)
    ensures
        r@ == upsert_mid(b),
{
    ", "
}

pub fn upsert_tail_sql(b: Backend) -> (r: &'static str)
    ensures
        r@ == upsert_tail(b),
{
    match b {
        Backend::Mysql => ") ON DUPLICATE KEY UPDATE `value` = VALUES(`value`)",
        _ => ") ON CONFLICT (\"key\") DO UPDATE SET \"value\" = excluded.\"value\"",
    }
}

pub fn delete_head_sql(b: Backend) -> (r: &'static str)
    ensures
        r@ == delete_head(b),
{
    match b {
        Backend::Mysql => "DELETE FROM `brine` WHERE `key` = ",
        _ => "DELETE FROM \"brine\" WHERE \"key\" = ",
    }
}

pub fn exists_head_sql(b: Backend) -> (r: &'static str)
    ensures
        r@ == exists_head(b),
{
    match b {
        Backend::Mysql => "SELECT EXISTS (SELECT 1 FROM `brine` WHERE `key` = ",
        _ => "SELECT EXISTS (SELECT 1 FROM \"brine\" WHERE \"key\" = ",
    }
}

pub fn exists_tail_sql(b: Backend) -> (r: &'static str)
    ensures
        r@ == exists_tail(b),
{
    ")"
}

pub fn keys_query_sql(b: Backend) -> (r: &'static str)
    ensures
        r@ == keys_query(b),
{
    match b {
        Backend::Mysql => "SELECT `key` FROM `brine`",
        _ => "SELECT \"key\" FROM \"brine\"",
    }
}

pub fn values_query_sql(b: Backend) -> (r: &'static str)
    ensures
        r@ == values_query(b),
{
    match b {
        Backend::Mysql => "SELECT `value` FROM `brine`",
        _ => "SELECT \"value\" FROM \"brine\"",
    }
}

pub fn count_query_sql(b: Backend) -> (r: &'static str)
    ensures
        r@ == count_query(b),
{
    match b {
        Backend::Mysql => "SELECT COUNT(*) FROM `brine`",
        _ => "SELECT COUNT(*) FROM \"brine\"",
    }
}

pub fn clear_statement_sql(b: Backend) -> (r: &'static str)
    ensures
        r@ == clear_statement(b),
{
    match b {
        Backend::Mysql => "DELETE FROM `brine`",
        _ => "DELETE FROM \"brine\"",
    }
}

pub fn close_hook_sql(b: Backend) -> (r: &'static str)
    ensures
        r@ == close_hook(b),
{
    match b {
        Backend::Postgres => "VACUUM",
        Backend::Mysql => "OPTIMIZE TABLE `brine`",
        Backend::Sqlite => "PRAGMA optimize",
    }
}

pub fn session_setup_sql(b: Backend) -> (r: Option<&'static str>)
    ensures
        r matches Some(s) ==> session_setup(b) == Some(s@),
        r is None ==> session_setup(b) is None,
{
    match b {
        Backend::Sqlite => Some("PRAGMA journal_mode=WAL; PRAGMA synchronous=normal;"),
        _ => None,
    }
}

pub fn batches_as_unit_for(b: Backend) -> (r: bool)
    ensures
        r == batches_as_unit(b),
{
    match b {
        Backend::Postgres => true,
        _ => false,
    }
}

} // verus!
