//! The schema's migration steps, in their fixed order, and which of them a
//! connection still needs given the record of those already applied.
//!
//! Each step runs as one script that makes its change and records its
//! version in `brine_migrations` inside a single transaction. On backends
//! whose schema changes are transactional (SQLite, PostgreSQL) a step is
//! thus either applied and recorded, or neither; MySQL commits a schema
//! change on its own, so there a failed step may leave its change without
//! its record.
use vstd::prelude::*;

use crate::dialect::{plain, session_setup, Request};
use crate::rows::views;
use crate::target::Backend;

verus! {

/// How many migration steps the schema has.
pub const STEP_COUNT: usize = 2;

/// The identifier recorded for step `i`.
pub open spec fn version(i: int) -> Seq<char> {
    if i == 0 {
        "m20220101_000001_create_table"@
    } else {
        "m20240407_192852_add_indexes"@
    }
}

/// The schema change of step `i`: the `brine` table, then its lookup index
/// on `key`.
pub open spec fn step_change(b: Backend, i: int) -> Seq<char> {
    if i == 0 {
        match b {
            Backend::Mysql => "CREATE TABLE IF NOT EXISTS `brine` (`key` VARCHAR(255) NOT NULL PRIMARY KEY, `value` TEXT)"@,
            _ => "CREATE TABLE IF NOT EXISTS \"brine\" (\"key\" TEXT NOT NULL PRIMARY KEY, \"value\" TEXT)"@,
        }
    } else {
        match b {
            Backend::Mysql => "CREATE INDEX `idx_key` ON `brine` (`key`)"@,
            _ => "CREATE INDEX IF NOT EXISTS \"idx_key\" ON \"brine\" (\"key\")"@,
        }
    }
}

/// Creates the migration record where it is missing.
pub open spec fn record_table() -> Seq<char> {
    "CREATE TABLE IF NOT EXISTS brine_migrations (version VARCHAR(255) NOT NULL PRIMARY KEY)"@
}

/// Reads the migration record.
pub open spec fn record_query() -> Seq<char> {
    "SELECT version FROM brine_migrations"@
}

/// The script that applies step `i` and records it, as one transaction.
pub open spec fn step_script(b: Backend, i: int) -> Seq<char> {
    "BEGIN; "@ + step_change(b, i) + "; INSERT INTO brine_migrations (version) VALUES ('"@ + version(i)
        + "'); COMMIT;"@
}

/// The steps among the first `n` that `applied` does not record, in order.
pub open spec fn pending_upto(applied: Seq<Seq<char>>, n: int) -> Seq<int>
    decreases n,
{
    if n <= 0 {
        Seq::empty()
    } else {
        let p = pending_upto(applied, n - 1);
        if applied.contains(version(n - 1)) {
            p
        } else {
            p.push(n - 1)
        }
    }
}

/// The steps that `applied` does not record, in their fixed order.
pub open spec fn pending(applied: Seq<Seq<char>>) -> Seq<int> {
    pending_upto(applied, STEP_COUNT as int)
}

/// The record after the steps `steps` were applied on top of `applied`.
pub open spec fn record_after(applied: Seq<Seq<char>>, steps: Seq<int>) -> Seq<Seq<char>> {
    applied + steps.map_values(|i: int| version(i))
}

/// The session settings' request, where the backend has any.
pub open spec fn setup_requests(b: Backend) -> Seq<Request> {
    match session_setup(b) {
        Some(s) => seq![plain(s)],
        None => Seq::empty(),
    }
}

/// The scripts of the steps `steps`, in order.
pub open spec fn step_requests(b: Backend, steps: Seq<int>) -> Seq<Request> {
    steps.map_values(|i: int| plain(step_script(b, i)))
}

/// What a migration run sends when the record reads `applied`: the record's
/// creation and read, the script of each pending step, then the session
/// settings.
pub open spec fn migration_requests(b: Backend, applied: Seq<Seq<char>>) -> Seq<Request> {
    seq![plain(record_table()), plain(record_query())] + step_requests(b, pending(applied))
        + setup_requests(b)
}

pub fn version_name(i: usize) -> (r: &'static str)
    requires
        i < STEP_COUNT,
    ensures
        r@ == version(i as int),
{
    if i == 0 {
        "m20220101_000001_create_table"
    } else {
        "m20240407_192852_add_indexes"
    }
}

pub fn step_change_sql(b: Backend, i: usize) -> (r: &'static str)
    requires
        i < STEP_COUNT,
    ensures
        r@ == step_change(b, i as int),
{
    if i == 0 {
        match b {
            Backend::Mysql => "CREATE TABLE IF NOT EXISTS `brine` (`key` VARCHAR(255) NOT NULL PRIMARY KEY, `value` TEXT)",
            _ => "CREATE TABLE IF NOT EXISTS \"brine\" (\"key\" TEXT NOT NULL PRIMARY KEY, \"value\" TEXT)",
        }
    } else {
        match b {
            Backend::Mysql => "CREATE INDEX `idx_key` ON `brine` (`key`)",
            _ => "CREATE INDEX IF NOT EXISTS \"idx_key\" ON \"brine\" (\"key\")",
        }
    }
}

pub fn record_table_sql() -> (r: &'static str)
    ensures
        r@ == record_table(),
{
    "CREATE TABLE IF NOT EXISTS brine_migrations (version VARCHAR(255) NOT NULL PRIMARY KEY)"
}

pub fn record_query_sql() -> (r: &'static str)
    ensures
        r@ == record_query(),
{
    "SELECT version FROM brine_migrations"
}

/// Builds the script of step `i`.
pub fn step_script_sql(b: Backend, i: usize) -> (r: String)
    requires
        i < STEP_COUNT,
    ensures
        r@ == step_script(b, i as int),
{
    let mut s = String::from_str("BEGIN; ");
    s.append(step_change_sql(b, i));
    s.append("; INSERT INTO brine_migrations (version) VALUES ('");
    s.append(version_name(i));
    s.append("'); COMMIT;");
    s
}

/// The steps that the record `applied` still lacks, in their fixed order.
pub fn pending_steps(applied: &Vec<String>) -> (r: Vec<usize>)
    ensures
        r@.map_values(|i: usize| i as int) == pending(views(applied@)),
        forall|j: int| 0 <= j < r@.len() ==> r@[j] < STEP_COUNT,
{
    let mut out: Vec<usize> = Vec::new();
    let mut i: usize = 0;
    while i < STEP_COUNT
        invariant
            i <= STEP_COUNT,
            out@.map_values(|i: usize| i as int) == pending_upto(views(applied@), i as int),
            forall|j: int| 0 <= j < out@.len() ==> out@[j] < i,
        decreases STEP_COUNT - i,
    {
        let v = String::from_str(version_name(i));
        if !crate::rows::contains_text(applied, &v) {
            let ghost before = out@;
            out.push(i);
            assert(out@.map_values(|i: usize| i as int) =~= before.map_values(|i: usize| i as int).push(
                i as int,
            ));
        }
        i = i + 1;
    }
    out
}

/// Step `i` is pending among the first `n` exactly when it is one of them and
/// the record lacks it.
pub proof fn lemma_pending_upto(applied: Seq<Seq<char>>, n: int, i: int)
    ensures
        pending_upto(applied, n).contains(i) <==> (0 <= i < n && !applied.contains(version(i))),
    decreases n,
{
    if n > 0 {
        lemma_pending_upto(applied, n - 1, i);
        let p = pending_upto(applied, n - 1);
        if !applied.contains(version(n - 1)) {
            let e = p.push(n - 1);
            assert(e[p.len() as int] == n - 1);
            if e.contains(i) {
                let k = choose|k: int| 0 <= k < e.len() && e[k] == i;
                if k < p.len() {
                    assert(p[k] == i);
                }
            }
            if p.contains(i) {
                let k = choose|k: int| 0 <= k < p.len() && p[k] == i;
                assert(e[k] == i);
            }
        }
    }
}

/// No more steps are pending than there are steps.
pub proof fn lemma_pending_len(applied: Seq<Seq<char>>)
    ensures
        pending(applied).len() <= STEP_COUNT,
{
    lemma_pending_upto_len(applied, STEP_COUNT as int);
}

proof fn lemma_pending_upto_len(applied: Seq<Seq<char>>, n: int)
    requires
        n >= 0,
    ensures
        pending_upto(applied, n).len() <= n,
    decreases n,
{
    if n > 0 {
        lemma_pending_upto_len(applied, n - 1);
    }
}

/// Running the migrations a second time applies nothing: once the pending
/// steps are applied and recorded, no step is pending.
pub proof fn lemma_second_run_applies_nothing(applied: Seq<Seq<char>>)
    ensures
        pending(record_after(applied, pending(applied))).len() == 0,
{
    let p = pending(applied);
    let after = record_after(applied, p);
    assert forall|i: int| 0 <= i < STEP_COUNT implies after.contains(version(i)) by {
        lemma_pending_upto(applied, STEP_COUNT as int, i);
        if applied.contains(version(i)) {
            let k = choose|k: int| 0 <= k < applied.len() && applied[k] == version(i);
            assert(after[k] == version(i));
        } else {
            let k = choose|k: int| 0 <= k < p.len() && p[k] == i;
            assert(after[applied.len() + k] == version(i));
        }
    }
    if pending(after).len() > 0 {
        let i = pending(after)[0];
        assert(pending(after).contains(i));
        lemma_pending_upto(after, STEP_COUNT as int, i);
    }
}

} // verus!
