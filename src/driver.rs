//! The calls into diesel that reach a backend. Each one is trusted: what it
//! returns depends on the database, so none of them promises anything of its
//! result; the verified code decides what each possible answer means.
use vstd::prelude::*;

use diesel::dsl::sql;
use diesel::result::{ConnectionError, Error};
use diesel::sql_types::{BigInt, Bool, Integer, Nullable, Text};
use diesel::{PgConnection, SqliteConnection};

verus! {

#[verifier::external_type_specification]
#[verifier::external_body]
pub struct ExSqliteConnection(SqliteConnection);

#[verifier::external_type_specification]
#[verifier::external_body]
pub struct ExPgConnection(PgConnection);

#[verifier::external_type_specification]
#[verifier::external_body]
pub struct ExQueryError(Error);

#[verifier::external_type_specification]
#[verifier::external_body]
pub struct ExConnectionError(ConnectionError);

/// Relies on diesel's `Display` for a failed statement: a readable message.
#[verifier::external_body]
pub(crate) fn query_error_text(e: Error) -> String {
    e.to_string()
}

/// Relies on diesel's `Display` for a failed connection: a readable message.
#[verifier::external_body]
pub(crate) fn connection_error_text(e: ConnectionError) -> String {
    e.to_string()
}

/// Relies on diesel's `Connection::establish` for SQLite: opens the database
/// that the URL names.
#[verifier::external_body]
pub(crate) fn sqlite_establish(uri: &str) -> Result<SqliteConnection, ConnectionError> {
    <SqliteConnection as diesel::Connection>::establish(uri)
}

/// Relies on diesel's `Connection::establish` for PostgreSQL: connects to the
/// server that the URL names.
#[verifier::external_body]
pub(crate) fn pg_establish(uri: &str) -> Result<PgConnection, ConnectionError> {
    <PgConnection as diesel::Connection>::establish(uri)
}

/// Relies on diesel's `SimpleConnection::batch_execute` for SQLite: runs the
/// statements of `script` in order.
#[verifier::external_body]
pub(crate) fn sqlite_batch(c: &mut SqliteConnection, script: &str) -> Result<(), Error> {
    diesel::connection::SimpleConnection::batch_execute(c, script)
}

/// Relies on diesel's `SimpleConnection::batch_execute` for PostgreSQL: runs
/// the statements of `script` in order.
#[verifier::external_body]
pub(crate) fn pg_batch(c: &mut PgConnection, script: &str) -> Result<(), Error> {
    diesel::connection::SimpleConnection::batch_execute(c, script)
}

/// Relies on diesel's `sql`, `bind` and `RunQueryDsl::execute` for SQLite:
/// runs `head`, a placeholder bound to `a`, then `tail`.
#[verifier::external_body]
pub(crate) fn sqlite_execute_one(
    c: &mut SqliteConnection,
    head: &str,
    a: &str,
    tail: &str,
) -> Result<usize, Error> {
    diesel::RunQueryDsl::execute(sql::<Integer>(head).bind::<Text, _>(a).sql(tail), c)
}

/// Relies on diesel's `sql`, `bind` and `RunQueryDsl::execute` for
/// PostgreSQL: runs `head`, a placeholder bound to `a`, then `tail`.
#[verifier::external_body]
pub(crate) fn pg_execute_one(c: &mut PgConnection, head: &str, a: &str, tail: &str) -> Result<
    usize,
    Error,
> {
    diesel::RunQueryDsl::execute(sql::<Integer>(head).bind::<Text, _>(a).sql(tail), c)
}

/// Relies on diesel's `sql`, `bind` and `RunQueryDsl::execute` for SQLite:
/// runs `head`, a placeholder bound to `a`, `mid`, one bound to `b`, `tail`.
#[verifier::external_body]
pub(crate) fn sqlite_execute_two(
    c: &mut SqliteConnection,
    head: &str,
    a: &str,
    mid: &str,
    b: &str,
    tail: &str,
) -> Result<usize, Error> {
    let q = sql::<Integer>(head).bind::<Text, _>(a).sql(mid).bind::<Text, _>(b).sql(tail);
    diesel::RunQueryDsl::execute(q, c)
}

/// Relies on diesel's `sql`, `bind` and `RunQueryDsl::execute` for
/// PostgreSQL: runs `head`, a placeholder bound to `a`, `mid`, one bound to
/// `b`, `tail`.
#[verifier::external_body]
pub(crate) fn pg_execute_two(
    c: &mut PgConnection,
    head: &str,
    a: &str,
    mid: &str,
    b: &str,
    tail: &str,
) -> Result<usize, Error> {
    let q = sql::<Integer>(head).bind::<Text, _>(a).sql(mid).bind::<Text, _>(b).sql(tail);
    diesel::RunQueryDsl::execute(q, c)
}

/// Relies on diesel's `sql` and `RunQueryDsl::load` for SQLite: the text
/// column of each row that `query` returns.
#[verifier::external_body]
pub(crate) fn sqlite_load_texts(c: &mut SqliteConnection, query: &str) -> Result<Vec<String>, Error> {
    diesel::RunQueryDsl::load::<String>(sql::<Text>(query), c)
}

/// Relies on diesel's `sql` and `RunQueryDsl::load` for PostgreSQL: the text
/// column of each row that `query` returns.
#[verifier::external_body]
pub(crate) fn pg_load_texts(c: &mut PgConnection, query: &str) -> Result<Vec<String>, Error> {
    diesel::RunQueryDsl::load::<String>(sql::<Text>(query), c)
}

/// Relies on diesel's `sql`, `bind` and `RunQueryDsl::load` for SQLite: the
/// nullable text column of each row of `head`, `a` bound, `tail`.
#[verifier::external_body]
pub(crate) fn sqlite_load_nullable_one(
    c: &mut SqliteConnection,
    head: &str,
    a: &str,
    tail: &str,
) -> Result<Vec<Option<String>>, Error> {
    let q = sql::<Nullable<Text>>(head).bind::<Text, _>(a).sql(tail);
    diesel::RunQueryDsl::load::<Option<String>>(q, c)
}

/// Relies on diesel's `sql`, `bind` and `RunQueryDsl::load` for PostgreSQL:
/// the nullable text column of each row of `head`, `a` bound, `tail`.
#[verifier::external_body]
pub(crate) fn pg_load_nullable_one(
    c: &mut PgConnection,
    head: &str,
    a: &str,
    tail: &str,
) -> Result<Vec<Option<String>>, Error> {
    let q = sql::<Nullable<Text>>(head).bind::<Text, _>(a).sql(tail);
    diesel::RunQueryDsl::load::<Option<String>>(q, c)
}

/// Relies on diesel's `sql` and `RunQueryDsl::get_result` for SQLite: the
/// integer of the one row that `query` returns.
#[verifier::external_body]
pub(crate) fn sqlite_get_integer(c: &mut SqliteConnection, query: &str) -> Result<i64, Error> {
    diesel::RunQueryDsl::get_result::<i64>(sql::<BigInt>(query), c)
}

/// Relies on diesel's `sql` and `RunQueryDsl::get_result` for PostgreSQL: the
/// integer of the one row that `query` returns.
#[verifier::external_body]
pub(crate) fn pg_get_integer(c: &mut PgConnection, query: &str) -> Result<i64, Error> {
    diesel::RunQueryDsl::get_result::<i64>(sql::<BigInt>(query), c)
}

/// Relies on diesel's `sql`, `bind` and `RunQueryDsl::get_result` for SQLite:
/// the boolean of the one row of `head`, `a` bound, `tail`.
#[verifier::external_body]
pub(crate) fn sqlite_get_bool_one(
    c: &mut SqliteConnection,
    head: &str,
    a: &str,
    tail: &str,
) -> Result<bool, Error> {
    diesel::RunQueryDsl::get_result::<bool>(sql::<Bool>(head).bind::<Text, _>(a).sql(tail), c)
}

/// Relies on diesel's `sql`, `bind` and `RunQueryDsl::get_result` for
/// PostgreSQL: the boolean of the one row of `head`, `a` bound, `tail`.
#[verifier::external_body]
pub(crate) fn pg_get_bool_one(c: &mut PgConnection, head: &str, a: &str, tail: &str) -> Result<
    bool,
    Error,
> {
    diesel::RunQueryDsl::get_result::<bool>(sql::<Bool>(head).bind::<Text, _>(a).sql(tail), c)
}

} // verus!
