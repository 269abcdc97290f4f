//! The connection manager and the key/value operations on one live
//! connection.
//!
//! `DieselBrine` owns at most one connection, tied to the target descriptor
//! it was opened for. Connecting to the target it already serves reuses the
//! connection; connecting to another one closes the old connection (running
//! its graceful-close hook) before the new one is opened, and if opening
//! fails the manager stays unconnected. Every operation on an unconnected
//! manager fails with `NotConnected`; none connects implicitly.
//!
//! Each operation's contract states the requests it hands to the backend,
//! as a ghost log of statement text and bound values, and beside it a ghost
//! log of what the backend answered to each; the contracts say how each
//! result follows from those answers, whatever they were.
//!
//! Statements go to the backend one at a time through `&mut self`, so no two
//! operations overlap on one connection, and a connection that was replaced
//! is dropped before any operation can reach it.
use vstd::prelude::*;

use crate::dialect::{
    batch_requests, batches_as_unit, batches_as_unit_for, bound_one, bound_two, clear_statement,
    clear_statement_sql, close_hook, close_hook_sql, count_query, count_query_sql,
    delete_head_sql, delete_request, delete_requests, exists_head_sql, exists_request,
    exists_tail_sql, keys_query, keys_query_sql, lookup_head_sql, lookup_request,
    lookup_requests, open_request, plain, session_setup_sql, upsert_head_sql, upsert_mid_sql, upsert_request,
    upsert_requests, upsert_tail_sql, values_query, values_query_sql, Request, BEGIN_SQL,
    COMMIT_SQL, ROLLBACK_SQL,
};
use crate::driver::{
    connection_error_text, pg_batch, pg_establish, pg_execute_one, pg_execute_two,
    pg_get_bool_one, pg_get_integer, pg_load_nullable_one, pg_load_texts, query_error_text,
    sqlite_batch, sqlite_establish, sqlite_execute_one, sqlite_execute_two, sqlite_get_bool_one,
    sqlite_get_integer, sqlite_load_nullable_one, sqlite_load_texts,
};
use crate::error::BrineError;
use crate::migration::{
    migration_requests, pending, pending_steps, record_query, record_query_sql, record_table,
    record_table_sql, setup_requests, step_requests, step_script,
    step_script_sql, version, STEP_COUNT,
};
use crate::rows::{distinct, first_value, found_value, opt_view, value_from_rows, views};
use crate::target::{backend_for, backend_of, Backend};
use diesel::{PgConnection, SqliteConnection};

verus! {

/// A live connection to one backend, tagged with its kind. The MySQL family
/// is recognised by `backend_for` and has its dialect, but its driver is not
/// part of this build, so no connection of that kind can exist.
pub enum AnyConnection {
    Postgresql(PgConnection),
    Sqlite(SqliteConnection),
}

/// An error of a statement, as the store reports it.
fn statement_failure(e: diesel::result::Error) -> (r: BrineError)
    ensures
        r is Backend,
{
    BrineError::Backend(query_error_text(e))
}


/// What a backend answered to one request.
pub enum Answer {
    /// The statement ran, or the connection opened.
    Done,
    /// The statement failed, or the connection could not be opened.
    Failed,
    /// The text column of each returned row.
    Texts(Seq<String>),
    /// The nullable text column of each returned row.
    Rows(Seq<Option<String>>),
    /// The integer of the one returned row.
    Count(i64),
    /// The boolean of the one returned row.
    Flag(bool),
}

/// The answer to a statement that returns no rows.
pub open spec fn outcome<T>(r: Result<T, BrineError>) -> Answer {
    if r is Ok {
        Answer::Done
    } else {
        Answer::Failed
    }
}

pub open spec fn texts_answer(r: Result<Vec<String>, BrineError>) -> Answer {
    match r {
        Ok(v) => Answer::Texts(v@),
        Err(_) => Answer::Failed,
    }
}

pub open spec fn rows_answer(r: Result<Vec<Option<String>>, BrineError>) -> Answer {
    match r {
        Ok(v) => Answer::Rows(v@),
        Err(_) => Answer::Failed,
    }
}

pub open spec fn count_answer(r: Result<i64, BrineError>) -> Answer {
    match r {
        Ok(n) => Answer::Count(n),
        Err(_) => Answer::Failed,
    }
}

pub open spec fn flag_answer(r: Result<bool, BrineError>) -> Answer {
    match r {
        Ok(x) => Answer::Flag(x),
        Err(_) => Answer::Failed,
    }
}

/// The result of a point read, given the backend's answer `a`: the first
/// row's value, or absence; a failed read is a `Backend` error.
pub open spec fn read_result(a: Answer, r: Result<Option<String>, BrineError>) -> bool {
    match a {
        Answer::Rows(rows) => r is Ok && opt_view(r->Ok_0) == first_value(rows),
        Answer::Failed => r matches Err(BrineError::Backend(_)),
        _ => false,
    }
}

/// `before` is a prefix of `after`.
pub open spec fn extends<A>(before: Seq<A>, after: Seq<A>) -> bool {
    before.len() <= after.len() && after.subrange(0, before.len() as int) == before
}

/// What `after` holds beyond `before`.
pub open spec fn tail<A>(before: Seq<A>, after: Seq<A>) -> Seq<A> {
    after.subrange(before.len() as int, after.len() as int)
}

/// A sequence of requests `reqs` that stopped at a failure: what was sent
/// is `reqs` up to and including the request that failed, followed by a
/// rollback exactly when `undone`; each request was answered, and the one
/// that failed is the first answered `Failed`.
pub open spec fn stopped_at(
    reqs: Seq<Request>,
    sent: Seq<Request>,
    heard: Seq<Answer>,
    undone: bool,
) -> bool {
    exists|i: int|
        0 <= i < reqs.len() && sent.len() == i + 1 + (if undone { 1int } else { 0int })
            && #[trigger] sent.subrange(0, i + 1) == reqs.subrange(0, i + 1) && (undone
            ==> sent[i + 1] == plain(ROLLBACK_SQL@)) && heard.len() == sent.len() && heard[i]
            == Answer::Failed && forall|j: int| 0 <= j < i ==> heard[j] != Answer::Failed
}

/// The pairs a batch read keeps: each wanted key among the first `n` whose
/// answer has a value, with that value, in order.
pub open spec fn found_upto(
    wanted: Seq<Seq<char>>,
    answers: Seq<Seq<Option<String>>>,
    n: int,
) -> Seq<(Seq<char>, Seq<char>)>
    decreases n,
{
    if n <= 0 {
        Seq::empty()
    } else {
        let p = found_upto(wanted, answers, n - 1);
        match first_value(answers[n - 1]) {
            Some(v) => p.push((wanted[n - 1], v)),
            None => p,
        }
    }
}

/// The pairs a batch read keeps from the answers to its point reads.
pub open spec fn found_of(wanted: Seq<Seq<char>>, answers: Seq<Seq<Option<String>>>) -> Seq<
    (Seq<char>, Seq<char>),
> {
    found_upto(wanted, answers, wanted.len() as int)
}

/// The rows answers of a sequence of point reads.
pub open spec fn rows_answers(answers: Seq<Seq<Option<String>>>) -> Seq<Answer> {
    answers.map_values(|a: Seq<Option<String>>| Answer::Rows(a))
}

/// The character sequences of key/value pairs.
pub open spec fn pair_views(s: Seq<(String, String)>) -> Seq<(Seq<char>, Seq<char>)> {
    s.map_values(|p: (String, String)| (p.0@, p.1@))
}

/// In the pairs a batch read keeps, the value found for a wanted key is the
/// first row of that key's answer, when the wanted keys are distinct.
pub proof fn lemma_found_value(
    wanted: Seq<Seq<char>>,
    answers: Seq<Seq<Option<String>>>,
    found: Seq<(String, String)>,
    i: int,
)
    requires
        wanted.no_duplicates(),
        answers.len() == wanted.len(),
        pair_views(found) == found_of(wanted, answers),
        0 <= i < wanted.len(),
    ensures
        found_value(found, wanted[i]) == first_value(answers[i]),
{
    lemma_found_upto(wanted, answers, found, wanted.len() as int, i);
}

proof fn lemma_found_upto(
    wanted: Seq<Seq<char>>,
    answers: Seq<Seq<Option<String>>>,
    found: Seq<(String, String)>,
    n: int,
    i: int,
)
    requires
        wanted.no_duplicates(),
        answers.len() == wanted.len(),
        0 <= n <= wanted.len(),
        pair_views(found) == found_upto(wanted, answers, n),
        0 <= i < wanted.len(),
    ensures
        i < n ==> found_value(found, wanted[i]) == first_value(answers[i]),
        i >= n ==> found_value(found, wanted[i]) is None,
    decreases n,
{
    if n == 0 {
        assert(found.len() == pair_views(found).len());
    } else {
        let p = found_upto(wanted, answers, n - 1);
        match first_value(answers[n - 1]) {
            Some(v) => {
                assert(found.len() == pair_views(found).len());
                assert(pair_views(found.drop_last()) =~= pair_views(found).drop_last());
                assert(pair_views(found).last() == (wanted[n - 1], v));
                assert(p.push((wanted[n - 1], v)).drop_last() =~= p);
                assert(found.last().0@ == pair_views(found).last().0);
                lemma_found_upto(wanted, answers, found.drop_last(), n - 1, i);
                if i != n - 1 {
                    assert(wanted[i] != wanted[n - 1]);
                }
            },
            None => {
                lemma_found_upto(wanted, answers, found, n - 1, i);
            },
        }
    }
}

/// Keeps, for each wanted key in order, the value of the first row of its
/// point read's answer, where there is one.
pub fn collect_found(wanted: &Vec<String>, answers: Vec<Vec<Option<String>>>) -> (r: Vec<
    (String, String),
>)
    requires
        answers@.len() == wanted@.len(),
    ensures
        pair_views(r@) == found_of(views(wanted@), answers@.map_values(|a: Vec<Option<String>>| a@)),
{
    let ghost all = answers@.map_values(|a: Vec<Option<String>>| a@);
    let mut rest = answers;
    let mut out: Vec<(String, String)> = Vec::new();
    let mut i: usize = 0;
    while i < wanted.len()
        invariant
            i <= wanted@.len(),
            all.len() == wanted@.len(),
            rest@.len() == wanted@.len() - i,
            forall|j: int| 0 <= j < rest@.len() ==> (#[trigger] rest@[j])@ == all[i + j],
            pair_views(out@) == found_upto(views(wanted@), all, i as int),
        decreases wanted@.len() - i,
    {
        let rows = rest.remove(0);
        assert(rows@ == all[i as int]);
        assert(views(wanted@)[i as int] == wanted@[i as int]@);
        match value_from_rows(rows) {
            Some(v) => {
                let ghost before = out@;
                out.push((wanted[i].clone(), v));
                assert(pair_views(out@) =~= pair_views(before).push((wanted@[i as int]@, v@)));
            },
            None => {},
        }
        proof {
            assert forall|j: int| 0 <= j < rest@.len() implies (#[trigger] rest@[j])@ == all[i + 1
                + j] by {
            }
        }
        i = i + 1;
    }
    out
}

impl AnyConnection {
    /// The backend this connection reaches.
    pub open spec fn backend(&self) -> Backend {
        match self {
            AnyConnection::Postgresql(_) => Backend::Postgres,
            AnyConnection::Sqlite(_) => Backend::Sqlite,
        }
    }

    pub fn kind(&self) -> (r: Backend)
        ensures
            r == self.backend(),
    {
        match self {
            AnyConnection::Postgresql(_) => Backend::Postgres,
            AnyConnection::Sqlite(_) => Backend::Sqlite,
        }
    }

    /// Opens a connection of family `b` to `uri`.
    fn open(
        b: Backend,
        uri: &str,
        sent: &mut Ghost<Seq<Request>>,
        heard: &mut Ghost<Seq<Answer>>,
    ) -> (r: Result<AnyConnection, BrineError>)
        requires
            b != Backend::Mysql,
        ensures
            final(sent)@ == old(sent)@.push(open_request(uri@)),
            final(heard)@ == old(heard)@.push(outcome(r)),
            r matches Ok(c) ==> c.backend() == b,
            r matches Err(e) ==> e is Connect,
    {
        *sent = Ghost(sent@.push(open_request(uri@)));
        let out = match b {
            Backend::Sqlite => match sqlite_establish(uri) {
                Ok(c) => Ok(AnyConnection::Sqlite(c)),
                Err(e) => Err(BrineError::Connect(connection_error_text(e))),
            },
            _ => match pg_establish(uri) {
                Ok(c) => Ok(AnyConnection::Postgresql(c)),
                Err(e) => Err(BrineError::Connect(connection_error_text(e))),
            },
        };
        *heard = Ghost(heard@.push(outcome(out)));
        out
    }

    fn run_script(
        &mut self,
        sent: &mut Ghost<Seq<Request>>,
        heard: &mut Ghost<Seq<Answer>>,
        script: &str,
    ) -> (r: Result<(), BrineError>)
        ensures
            final(self).backend() == old(self).backend(),
            final(sent)@ == old(sent)@.push(plain(script@)),
            final(heard)@ == old(heard)@.push(outcome(r)),
            r matches Err(e) ==> e is Backend,
    {
        *sent = Ghost(sent@.push(plain(script@)));
        let r = match self {
            AnyConnection::Sqlite(c) => sqlite_batch(c, script),
            AnyConnection::Postgresql(c) => pg_batch(c, script),
        };
        let out = match r {
            Ok(()) => Ok(()),
            Err(e) => Err(statement_failure(e)),
        };
        *heard = Ghost(heard@.push(outcome(out)));
        out
    }

    fn execute_one(
        &mut self,
        sent: &mut Ghost<Seq<Request>>,
        heard: &mut Ghost<Seq<Answer>>,
        head: &str,
        a: &str,
        tail: &str,
    ) -> (r: Result<usize, BrineError>)
        ensures
            final(self).backend() == old(self).backend(),
            final(sent)@ == old(sent)@.push(bound_one(head@, a@, tail@)),
            final(heard)@ == old(heard)@.push(outcome(r)),
            r matches Err(e) ==> e is Backend,
    {
        *sent = Ghost(sent@.push(bound_one(head@, a@, tail@)));
        let r = match self {
            AnyConnection::Sqlite(c) => sqlite_execute_one(c, head, a, tail),
            AnyConnection::Postgresql(c) => pg_execute_one(c, head, a, tail),
        };
        let out = match r {
            Ok(v) => Ok(v),
            Err(e) => Err(statement_failure(e)),
        };
        *heard = Ghost(heard@.push(outcome(out)));
        out
    }

    fn execute_two(
        &mut self,
        sent: &mut Ghost<Seq<Request>>,
        heard: &mut Ghost<Seq<Answer>>,
        head: &str,
        a: &str,
        mid: &str,
        b: &str,
        tail: &str,
    ) -> (r: Result<usize, BrineError>)
        ensures
            final(self).backend() == old(self).backend(),
            final(sent)@ == old(sent)@.push(bound_two(head@, a@, mid@, b@, tail@)),
            final(heard)@ == old(heard)@.push(outcome(r)),
            r matches Err(e) ==> e is Backend,
    {
        *sent = Ghost(sent@.push(bound_two(head@, a@, mid@, b@, tail@)));
        let r = match self {
            AnyConnection::Sqlite(c) => sqlite_execute_two(c, head, a, mid, b, tail),
            AnyConnection::Postgresql(c) => pg_execute_two(c, head, a, mid, b, tail),
        };
        let out = match r {
            Ok(v) => Ok(v),
            Err(e) => Err(statement_failure(e)),
        };
        *heard = Ghost(heard@.push(outcome(out)));
        out
    }

    fn load_texts(
        &mut self,
        sent: &mut Ghost<Seq<Request>>,
        heard: &mut Ghost<Seq<Answer>>,
        query: &str,
    ) -> (r: Result<Vec<String>, BrineError>)
        ensures
            final(self).backend() == old(self).backend(),
            final(sent)@ == old(sent)@.push(plain(query@)),
            final(heard)@ == old(heard)@.push(texts_answer(r)),
            r matches Err(e) ==> e is Backend,
    {
        *sent = Ghost(sent@.push(plain(query@)));
        let r = match self {
            AnyConnection::Sqlite(c) => sqlite_load_texts(c, query),
            AnyConnection::Postgresql(c) => pg_load_texts(c, query),
        };
        let out = match r {
            Ok(v) => Ok(v),
            Err(e) => Err(statement_failure(e)),
        };
        *heard = Ghost(heard@.push(texts_answer(out)));
        out
    }

    fn load_nullable_one(
        &mut self,
        sent: &mut Ghost<Seq<Request>>,
        heard: &mut Ghost<Seq<Answer>>,
        head: &str,
        a: &str,
        tail: &str,
    ) -> (r: Result<Vec<Option<String>>, BrineError>)
        ensures
            final(self).backend() == old(self).backend(),
            final(sent)@ == old(sent)@.push(bound_one(head@, a@, tail@)),
            final(heard)@ == old(heard)@.push(rows_answer(r)),
            r matches Err(e) ==> e is Backend,
    {
        *sent = Ghost(sent@.push(bound_one(head@, a@, tail@)));
        let r = match self {
            AnyConnection::Sqlite(c) => sqlite_load_nullable_one(c, head, a, tail),
            AnyConnection::Postgresql(c) => pg_load_nullable_one(c, head, a, tail),
        };
        let out = match r {
            Ok(v) => Ok(v),
            Err(e) => Err(statement_failure(e)),
        };
        *heard = Ghost(heard@.push(rows_answer(out)));
        out
    }

    fn get_integer(
        &mut self,
        sent: &mut Ghost<Seq<Request>>,
        heard: &mut Ghost<Seq<Answer>>,
        query: &str,
    ) -> (r: Result<i64, BrineError>)
        ensures
            final(self).backend() == old(self).backend(),
            final(sent)@ == old(sent)@.push(plain(query@)),
            final(heard)@ == old(heard)@.push(count_answer(r)),
            r matches Err(e) ==> e is Backend,
    {
        *sent = Ghost(sent@.push(plain(query@)));
        let r = match self {
            AnyConnection::Sqlite(c) => sqlite_get_integer(c, query),
            AnyConnection::Postgresql(c) => pg_get_integer(c, query),
        };
        let out = match r {
            Ok(v) => Ok(v),
            Err(e) => Err(statement_failure(e)),
        };
        *heard = Ghost(heard@.push(count_answer(out)));
        out
    }

    fn get_bool_one(
        &mut self,
        sent: &mut Ghost<Seq<Request>>,
        heard: &mut Ghost<Seq<Answer>>,
        head: &str,
        a: &str,
        tail: &str,
    ) -> (r: Result<bool, BrineError>)
        ensures
            final(self).backend() == old(self).backend(),
            final(sent)@ == old(sent)@.push(bound_one(head@, a@, tail@)),
            final(heard)@ == old(heard)@.push(flag_answer(r)),
            r matches Err(e) ==> e is Backend,
    {
        *sent = Ghost(sent@.push(bound_one(head@, a@, tail@)));
        let r = match self {
            AnyConnection::Sqlite(c) => sqlite_get_bool_one(c, head, a, tail),
            AnyConnection::Postgresql(c) => pg_get_bool_one(c, head, a, tail),
        };
        let out = match r {
            Ok(v) => Ok(v),
            Err(e) => Err(statement_failure(e)),
        };
        *heard = Ghost(heard@.push(flag_answer(out)));
        out
    }
}

/// The live connection and the target descriptor it was opened for.
struct Live {
    connection: AnyConnection,
    target: String,
}

/// What a manager's state is, as its contracts see it.
pub struct BrineState {
    /// The target the live connection serves; `None` when unconnected.
    pub target: Option<Seq<char>>,
    /// The backend of the live connection.
    pub backend: Option<Backend>,
    /// The targets whose connection was closed, in the order of closing.
    pub closed: Seq<Seq<char>>,
}

/// The state after the live connection, if any, was closed.
pub open spec fn after_close(s: BrineState) -> BrineState {
    BrineState {
        target: None,
        backend: None,
        closed: match s.target {
            Some(t) => s.closed.push(t),
            None => s.closed,
        },
    }
}

/// What closing the live connection, if any, sends: its close hook.
pub open spec fn closing_requests(s: BrineState) -> Seq<Request> {
    if s.target is Some {
        seq![plain(close_hook(s.backend->Some_0))]
    } else {
        Seq::empty()
    }
}

/// What closing the live connection, if any, heard back, given the
/// result `r` of closing it.
pub open spec fn closing_answers(s: BrineState, r: Result<(), BrineError>) -> Seq<Answer> {
    if s.target is Some {
        seq![outcome(r)]
    } else {
        Seq::empty()
    }
}

/// What connecting the manager in state `s` to the usable target `uri`
/// sends: nothing when it already serves `uri`; else the close hook of the
/// connection it replaces, if any, then the opening of `uri`.
pub open spec fn switch_requests(s: BrineState, uri: Seq<char>) -> Seq<Request> {
    if s.target == Some(uri) {
        Seq::empty()
    } else {
        closing_requests(s).push(open_request(uri))
    }
}

/// Once closed, a manager is unconnected, so every operation on it fails
/// with `NotConnected`; closing it a second time changes nothing and sends
/// nothing.
pub proof fn lemma_close_leaves_unconnected(s: BrineState)
    ensures
        after_close(s).target is None,
        after_close(s).backend is None,
        after_close(after_close(s)) == after_close(s),
        closing_requests(after_close(s)) == Seq::<Request>::empty(),
{
}

/// Switching to another target closes the old target's connection exactly
/// once, before anything else, and no connection to the old target is left.
pub proof fn lemma_switch_closes_old_once(before: BrineState, after: BrineState, uri: Seq<char>)
    requires
        before.target is Some,
        before.target != Some(uri),
        after.closed == after_close(before).closed,
        after.target is Some ==> after.target == Some(uri),
    ensures
        after.closed.len() == before.closed.len() + 1,
        after.closed.last() == before.target->Some_0,
        after.closed.subrange(0, before.closed.len() as int) == before.closed,
        after.target != before.target,
        closing_requests(before).len() == 1,
{
    assert(after.closed.subrange(0, before.closed.len() as int) =~= before.closed);
}

/// The connection manager and key/value operations over one connection.
pub struct DieselBrine {
    live: Option<Live>,
    closed: Ghost<Seq<Seq<char>>>,
    sent: Ghost<Seq<Request>>,
    heard: Ghost<Seq<Answer>>,
}

impl View for DieselBrine {
    type V = BrineState;

    closed spec fn view(&self) -> BrineState {
        BrineState {
            target: match self.live {
                Some(l) => Some(l.target@),
                None => None,
            },
            backend: match self.live {
                Some(l) => backend_of(l.target@),
                None => None,
            },
            closed: self.closed@,
        }
    }
}

/// `after` is `before` followed by `t`.
pub proof fn lemma_tail<A>(before: Seq<A>, t: Seq<A>)
    ensures
        extends(before, before + t),
        tail(before, before + t) == t,
{
    assert((before + t).subrange(0, before.len() as int) =~= before);
    assert(tail(before, before + t) =~= t);
}

/// A prefix followed by what lies beyond it is the whole.
pub proof fn lemma_extends<A>(before: Seq<A>, after: Seq<A>)
    requires
        extends(before, after),
    ensures
        after == before + tail(before, after),
{
    assert(after =~= before + tail(before, after));
}

/// A request sequence that stopped at a failure, shown by its index.
proof fn lemma_stopped(reqs: Seq<Request>, i: int, sent: Seq<Request>, heard: Seq<Answer>, undone: bool)
    requires
        0 <= i < reqs.len(),
        sent.len() == i + 1 + (if undone { 1int } else { 0int }),
        sent.subrange(0, i + 1) == reqs.subrange(0, i + 1),
        undone ==> sent[i + 1] == plain(ROLLBACK_SQL@),
        heard.len() == sent.len(),
        heard[i] == Answer::Failed,
        forall|j: int| 0 <= j < i ==> heard[j] != Answer::Failed,
    ensures
        stopped_at(reqs, sent, heard, undone),
{
}

/// A stop inside `reqs` is a stop inside `pre + reqs + more`, when `pre`
/// went through without a failure.
proof fn lemma_stopped_shift(
    pre: Seq<Request>,
    preh: Seq<Answer>,
    reqs: Seq<Request>,
    more: Seq<Request>,
    sent: Seq<Request>,
    heard: Seq<Answer>,
    undone: bool,
)
    requires
        stopped_at(reqs, sent, heard, undone),
        preh.len() == pre.len(),
        forall|j: int| 0 <= j < preh.len() ==> preh[j] != Answer::Failed,
    ensures
        stopped_at(pre + reqs + more, pre + sent, preh + heard, undone),
{
    let i = choose|i: int|
        0 <= i < reqs.len() && sent.len() == i + 1 + (if undone { 1int } else { 0int })
            && #[trigger] sent.subrange(0, i + 1) == reqs.subrange(0, i + 1) && (undone
            ==> sent[i + 1] == plain(ROLLBACK_SQL@)) && heard.len() == sent.len() && heard[i]
            == Answer::Failed && forall|j: int| 0 <= j < i ==> heard[j] != Answer::Failed;
    let k = pre.len() + i;
    let all = pre + reqs + more;
    assert((pre + sent).subrange(0, k + 1) =~= all.subrange(0, k + 1)) by {
        assert forall|j: int| 0 <= j < k + 1 implies #[trigger] (pre + sent).subrange(0, k + 1)[j] == all.subrange(
            0,
            k + 1,
        )[j] by {
            if j >= pre.len() {
                assert(sent.subrange(0, i + 1)[j - pre.len()] == reqs.subrange(0, i + 1)[j - pre.len()]);
            }
        }
    }
    assert forall|j: int| 0 <= j < k implies (preh + heard)[j] != Answer::Failed by {
        if j >= preh.len() {
            assert((preh + heard)[j] == heard[j - preh.len()]);
        }
    }
    lemma_stopped(all, k, pre + sent, preh + heard, undone);
}

/// A stop with nothing after the failed request, followed by a rollback.
proof fn lemma_stopped_rollback(reqs: Seq<Request>, sent: Seq<Request>, heard: Seq<Answer>, h: Answer)
    requires
        stopped_at(reqs, sent, heard, false),
    ensures
        stopped_at(reqs, sent.push(plain(ROLLBACK_SQL@)), heard.push(h), true),
{
    let i = choose|i: int|
        0 <= i < reqs.len() && sent.len() == i + 1 + (if false { 1int } else { 0int })
            && #[trigger] sent.subrange(0, i + 1) == reqs.subrange(0, i + 1) && (false
            ==> sent[i + 1] == plain(ROLLBACK_SQL@)) && heard.len() == sent.len() && heard[i]
            == Answer::Failed && forall|j: int| 0 <= j < i ==> heard[j] != Answer::Failed;
    assert(sent.push(plain(ROLLBACK_SQL@)).subrange(0, i + 1) =~= sent.subrange(0, i + 1));
    lemma_stopped(reqs, i, sent.push(plain(ROLLBACK_SQL@)), heard.push(h), true);
}

/// Every answer in `dones(n)` is `Done`.
pub open spec fn dones(n: int) -> Seq<Answer> {
    Seq::new(n as nat, |i: int| Answer::Done)
}

/// `e` is the failure of one of the migration steps `steps`.
pub open spec fn fails_one_of(e: BrineError, steps: Seq<int>) -> bool {
    match e {
        BrineError::Migration { version: v, .. } => exists|j: int|
            0 <= j < steps.len() && v@ == version(#[trigger] steps[j]),
        _ => false,
    }
}

/// Applies, in their fixed order, the migration steps that the record
/// `applied` lacks, each step as one transaction. Stops at the first step
/// that fails, rolls it back and names it; the steps before it stay applied.
fn apply_pending(
    connection: &mut AnyConnection,
    sent: &mut Ghost<Seq<Request>>,
    heard: &mut Ghost<Seq<Answer>>,
    applied: &Vec<String>,
) -> (r: Result<usize, BrineError>)
    ensures
        final(connection).backend() == old(connection).backend(),
        r matches Ok(n) ==> n == pending(views(applied@)).len() && final(sent)@ == old(sent)@
            + step_requests(old(connection).backend(), pending(views(applied@)))
            && final(heard)@ == old(heard)@ + dones(n as int),
        r matches Err(e) ==> fails_one_of(e, pending(views(applied@))) && extends(
            old(sent)@,
            final(sent)@,
        ) && extends(old(heard)@, final(heard)@) && stopped_at(
            step_requests(old(connection).backend(), pending(views(applied@))),
            tail(old(sent)@, final(sent)@),
            tail(old(heard)@, final(heard)@),
            true,
        ),
{
    let steps = pending_steps(applied);
    let ghost planned = pending(views(applied@));
    let ghost start = sent@;
    let ghost hstart = heard@;
    let b = connection.kind();
    let mut i: usize = 0;
    while i < steps.len()
        invariant
            connection.backend() == b,
            b == old(connection).backend(),
            planned == pending(views(applied@)),
            steps@.map_values(|i: usize| i as int) == planned,
            forall|j: int| 0 <= j < steps@.len() ==> steps@[j] < STEP_COUNT,
            i <= steps@.len(),
            start == old(sent)@,
            hstart == old(heard)@,
            sent@ == start + step_requests(b, planned.subrange(0, i as int)),
            heard@ == hstart + dones(i as int),
        decreases steps@.len() - i,
    {
        let s = steps[i];
        assert(planned.len() == steps@.len());
        assert(planned[i as int] == s as int);
        let script = step_script_sql(b, s);
        let ghost before_h = heard@;
        match connection.run_script(sent, heard, script.as_str()) {
            Ok(()) => {},
            Err(e) => {
                let ghost failed_sent = sent@;
                let ghost failed_heard = heard@;
                let _ = connection.run_script(sent, heard, ROLLBACK_SQL);
                let message = match e {
                    BrineError::Backend(m) => m,
                    _ => String::new(),
                };
                let v = String::from_str(crate::migration::version_name(s));
                assert(0 <= i < planned.len() && v@ == version(planned[i as int]));
                let err = BrineError::Migration { version: v, message };
                assert(fails_one_of(err, planned));
                proof {
                    let reqs = step_requests(b, planned);
                    let st = step_requests(b, planned.subrange(0, i + 1));
                    let ht = dones(i as int).push(Answer::Failed);
                    assert(failed_sent =~= start + st);
                    assert(failed_heard =~= hstart + ht);
                    assert(st.subrange(0, i + 1) =~= reqs.subrange(0, i + 1));
                    lemma_stopped(reqs, i as int, st, ht, false);
                    lemma_stopped_rollback(reqs, st, ht, heard@.last());
                    assert(sent@ =~= start + st.push(plain(ROLLBACK_SQL@)));
                    assert(heard@ =~= hstart + ht.push(heard@.last()));
                    lemma_tail(start, st.push(plain(ROLLBACK_SQL@)));
                    lemma_tail(hstart, ht.push(heard@.last()));
                }
                return Err(err);
            },
        }
        assert(step_requests(b, planned.subrange(0, i + 1)) =~= step_requests(
            b,
            planned.subrange(0, i as int),
        ).push(plain(step_script(b, s as int))));
        assert(heard@ =~= hstart + dones(i + 1));
        i = i + 1;
    }
    assert(planned.subrange(0, steps@.len() as int) =~= planned);
    Ok(steps.len())
}

impl DieselBrine {
    /// Upserts every pair, in order, on the live connection.
    fn upsert_all(
        connection: &mut AnyConnection,
        sent: &mut Ghost<Seq<Request>>,
        heard: &mut Ghost<Seq<Answer>>,
        pairs: &Vec<(String, String)>,
    ) -> (r: Result<(), BrineError>)
        ensures
            final(connection).backend() == old(connection).backend(),
            r is Ok ==> final(sent)@ == old(sent)@ + upsert_requests(old(connection).backend(), pairs@)
                && final(heard)@ == old(heard)@ + dones(pairs@.len() as int),
            r matches Err(e) ==> e is Backend && extends(old(sent)@, final(sent)@) && extends(
                old(heard)@,
                final(heard)@,
            ) && stopped_at(
                upsert_requests(old(connection).backend(), pairs@),
                tail(old(sent)@, final(sent)@),
                tail(old(heard)@, final(heard)@),
                false,
            ),
    {
        let b = connection.kind();
        let ghost start = sent@;
        let ghost hstart = heard@;
        let mut i: usize = 0;
        while i < pairs.len()
            invariant
                connection.backend() == b,
                b == old(connection).backend(),
                i <= pairs@.len(),
                start == old(sent)@,
                hstart == old(heard)@,
                sent@ == start + upsert_requests(b, pairs@.subrange(0, i as int)),
                heard@ == hstart + dones(i as int),
            decreases pairs@.len() - i,
        {
            let r = connection.execute_two(
                sent,
                heard,
                upsert_head_sql(b),
                pairs[i].0.as_str(),
                upsert_mid_sql(b),
                pairs[i].1.as_str(),
                upsert_tail_sql(b),
            );
            assert(upsert_requests(b, pairs@.subrange(0, i + 1)) =~= upsert_requests(
                b,
                pairs@.subrange(0, i as int),
            ).push(upsert_request(b, pairs@[i as int].0@, pairs@[i as int].1@)));
            match r {
                Ok(_) => {},
                Err(e) => {
                    proof {
                        let reqs = upsert_requests(b, pairs@);
                        let st = upsert_requests(b, pairs@.subrange(0, i + 1));
                        let ht = dones(i as int).push(Answer::Failed);
                        assert(sent@ =~= start + st);
                        assert(heard@ =~= hstart + ht);
                        assert(st.subrange(0, i + 1) =~= reqs.subrange(0, i + 1));
                        lemma_stopped(reqs, i as int, st, ht, false);
                        lemma_tail(start, st);
                        lemma_tail(hstart, ht);
                    }
                    return Err(e);
                },
            }
            assert(heard@ =~= hstart + dones(i + 1));
            i = i + 1;
        }
        assert(pairs@.subrange(0, pairs@.len() as int) =~= pairs@);
        Ok(())
    }

    /// Point-reads each of `wanted`, in order, and keeps the keys whose
    /// read found a value, with that value.
    fn fetch_found(
        connection: &mut AnyConnection,
        sent: &mut Ghost<Seq<Request>>,
        heard: &mut Ghost<Seq<Answer>>,
        wanted: &Vec<String>,
    ) -> (r: Result<Vec<(String, String)>, BrineError>)
        ensures
            final(connection).backend() == old(connection).backend(),
            wanted@.len() == 0 ==> r is Ok,
            r matches Ok(found) ==> exists|answers: Seq<Seq<Option<String>>>|
                answers.len() == wanted@.len() && final(sent)@ == old(sent)@ + lookup_requests(
                    old(connection).backend(),
                    views(wanted@),
                ) && final(heard)@ == old(heard)@ + #[trigger] rows_answers(answers) && pair_views(
                    found@,
                ) == found_of(views(wanted@), answers),
            r matches Err(e) ==> e is Backend && extends(old(sent)@, final(sent)@) && extends(
                old(heard)@,
                final(heard)@,
            ) && stopped_at(
                lookup_requests(old(connection).backend(), views(wanted@)),
                tail(old(sent)@, final(sent)@),
                tail(old(heard)@, final(heard)@),
                false,
            ),
    {
        let b = connection.kind();
        let ghost start = sent@;
        let ghost hstart = heard@;
        let mut answers: Vec<Vec<Option<String>>> = Vec::new();
        let mut i: usize = 0;
        while i < wanted.len()
            invariant
                i <= wanted@.len(),
                connection.backend() == b,
                b == old(connection).backend(),
                answers@.len() == i,
                start == old(sent)@,
                hstart == old(heard)@,
                sent@ == start + lookup_requests(b, views(wanted@).subrange(0, i as int)),
                heard@ == hstart + rows_answers(
                    answers@.map_values(|a: Vec<Option<String>>| a@),
                ),
            decreases wanted@.len() - i,
        {
            let r = connection.load_nullable_one(sent, heard, lookup_head_sql(b), wanted[i].as_str(), "");
            assert(views(wanted@)[i as int] == wanted@[i as int]@);
            assert(lookup_requests(b, views(wanted@).subrange(0, i + 1)) =~= lookup_requests(
                b,
                views(wanted@).subrange(0, i as int),
            ).push(lookup_request(b, wanted@[i as int]@)));
            match r {
                Ok(rows) => {
                    let ghost before = answers@;
                    answers.push(rows);
                    assert(rows_answers(answers@.map_values(|a: Vec<Option<String>>| a@)) =~= rows_answers(
                        before.map_values(|a: Vec<Option<String>>| a@),
                    ).push(Answer::Rows(answers@[i as int]@)));
                },
                Err(e) => {
                    proof {
                        let reqs = lookup_requests(b, views(wanted@));
                        let st = lookup_requests(b, views(wanted@).subrange(0, i + 1));
                        let ht = rows_answers(answers@.map_values(|a: Vec<Option<String>>| a@)).push(
                            Answer::Failed,
                        );
                        assert(sent@ =~= start + st);
                        assert(heard@ =~= hstart + ht);
                        assert(st.subrange(0, i + 1) =~= reqs.subrange(0, i + 1));
                        lemma_stopped(reqs, i as int, st, ht, false);
                        lemma_tail(start, st);
                        lemma_tail(hstart, ht);
                    }
                    return Err(e);
                },
            }
            i = i + 1;
        }
        assert(views(wanted@).subrange(0, wanted@.len() as int) =~= views(wanted@));
        let ghost seen = answers@.map_values(|a: Vec<Option<String>>| a@);
        let found = collect_found(wanted, answers);
        assert(heard@ == hstart + rows_answers(seen));
        Ok(found)
    }

    /// Deletes the row of each of `keys`, in order.
    fn delete_each(
        connection: &mut AnyConnection,
        sent: &mut Ghost<Seq<Request>>,
        heard: &mut Ghost<Seq<Answer>>,
        keys: &Vec<String>,
    ) -> (r: Result<(), BrineError>)
        ensures
            final(connection).backend() == old(connection).backend(),
            r is Ok ==> final(sent)@ == old(sent)@ + delete_requests(old(connection).backend(), views(keys@))
                && final(heard)@ == old(heard)@ + dones(keys@.len() as int),
            r matches Err(e) ==> e is Backend && extends(old(sent)@, final(sent)@) && extends(
                old(heard)@,
                final(heard)@,
            ) && stopped_at(
                delete_requests(old(connection).backend(), views(keys@)),
                tail(old(sent)@, final(sent)@),
                tail(old(heard)@, final(heard)@),
                false,
            ),
    {
        let b = connection.kind();
        let ghost start = sent@;
        let ghost hstart = heard@;
        let mut i: usize = 0;
        while i < keys.len()
            invariant
                i <= keys@.len(),
                connection.backend() == b,
                b == old(connection).backend(),
                start == old(sent)@,
                hstart == old(heard)@,
                sent@ == start + delete_requests(b, views(keys@).subrange(0, i as int)),
                heard@ == hstart + dones(i as int),
            decreases keys@.len() - i,
        {
            let r = connection.execute_one(sent, heard, delete_head_sql(b), keys[i].as_str(), "");
            assert(views(keys@)[i as int] == keys@[i as int]@);
            assert(delete_requests(b, views(keys@).subrange(0, i + 1)) =~= delete_requests(
                b,
                views(keys@).subrange(0, i as int),
            ).push(delete_request(b, keys@[i as int]@)));
            match r {
                Ok(_) => {},
                Err(e) => {
                    proof {
                        let reqs = delete_requests(b, views(keys@));
                        let st = delete_requests(b, views(keys@).subrange(0, i + 1));
                        let ht = dones(i as int).push(Answer::Failed);
                        assert(sent@ =~= start + st);
                        assert(heard@ =~= hstart + ht);
                        assert(st.subrange(0, i + 1) =~= reqs.subrange(0, i + 1));
                        lemma_stopped(reqs, i as int, st, ht, false);
                        lemma_tail(start, st);
                        lemma_tail(hstart, ht);
                    }
                    return Err(e);
                },
            }
            assert(heard@ =~= hstart + dones(i + 1));
            i = i + 1;
        }
        assert(views(keys@).subrange(0, keys@.len() as int) =~= views(keys@));
        Ok(())
    }
}

impl DieselBrine {
    /// The live connection is of the backend that its target selects.
    pub closed spec fn wf(&self) -> bool {
        match self.live {
            Some(l) => backend_of(l.target@) == Some(l.connection.backend()),
            None => true,
        }
    }

    /// The requests this manager has handed to its backends, oldest first.
    pub closed spec fn sent(&self) -> Seq<Request> {
        self.sent@
    }

    /// What the backends answered, one answer per request, oldest first.
    pub closed spec fn heard(&self) -> Seq<Answer> {
        self.heard@
    }

    /// An unconnected manager.
    pub fn new() -> (r: Self)
        ensures
            r@.target is None,
            r@.backend is None,
            r@.closed == Seq::<Seq<char>>::empty(),
            r.sent() == Seq::<Request>::empty(),
            r.heard() == Seq::<Answer>::empty(),
            r.wf(),
    {
        DieselBrine {
            live: None,
            closed: Ghost(Seq::empty()),
            sent: Ghost(Seq::empty()),
            heard: Ghost(Seq::empty()),
        }
    }

    /// Whether a connection is live.
    pub fn is_connected(&self) -> (r: bool)
        ensures
            r == self@.target is Some,
    {
        self.live.is_some()
    }

    /// Closes the live connection, if any: runs its graceful-close hook and
    /// drops it whether or not the hook succeeded.
    fn shut(&mut self) -> (r: Result<(), BrineError>)
        requires
            old(self).wf(),
        ensures
            final(self).wf(),
            final(self)@ == after_close(old(self)@),
            final(self).sent() == old(self).sent() + closing_requests(old(self)@),
            final(self).heard() == old(self).heard() + closing_answers(old(self)@, r),
            old(self)@.target is None ==> r is Ok,
            r matches Err(e) ==> e is Close,
    {
        match self.live.take() {
            None => {
                assert(self.sent@ =~= self.sent@ + Seq::<Request>::empty());
                assert(self.heard@ =~= self.heard@ + Seq::<Answer>::empty());
                Ok(())
            },
            Some(live) => {
                self.closed = Ghost(self.closed@.push(live.target@));
                let mut connection = live.connection;
                let b = connection.kind();
                let r = connection.run_script(&mut self.sent, &mut self.heard, close_hook_sql(b));
                assert(self.sent@ =~= old(self).sent@ + seq![plain(close_hook(b))]);
                let out = match r {
                    Ok(()) => Ok(()),
                    Err(BrineError::Backend(m)) => Err(BrineError::Close(m)),
                    Err(e) => Err(e),
                };
                assert(self.heard@ =~= old(self).heard@ + seq![outcome(out)]);
                out
            },
        }
    }

    /// Connects to `uri`, whose scheme prefix selects the backend.
    ///
    /// A target this manager cannot serve (an unrecognised scheme, or a
    /// backend whose driver this build lacks) leaves it unconnected: the
    /// live connection, if any, is closed and the target refused. The
    /// target already served is reused as it is. Otherwise the live
    /// connection, if any, is closed first; then the new one is opened. If
    /// opening fails, the manager is left unconnected. A failed close hook
    /// does not stop the switch: it is reported as `Close` with the new
    /// connection live.
    pub fn connect(&mut self, uri: &str) -> (r: Result<(), BrineError>)
        requires
            old(self).wf(),
        ensures
            final(self).wf(),
            backend_of(uri@) is None || backend_of(uri@) == Some(Backend::Mysql) ==> {
                &&& backend_of(uri@) is None ==> r == Err::<(), _>(BrineError::UnsupportedBackend)
                &&& backend_of(uri@) is Some ==> r == Err::<(), _>(
                    BrineError::DriverUnavailable(Backend::Mysql),
                )
                &&& final(self)@ == after_close(old(self)@)
                &&& final(self).sent() == old(self).sent() + closing_requests(old(self)@)
                &&& extends(old(self).heard(), final(self).heard())
                &&& final(self).heard().len() == final(self).sent().len() - old(self).sent().len()
                    + old(self).heard().len()
            },
            backend_of(uri@) is Some && backend_of(uri@) != Some(Backend::Mysql) ==> {
                if old(self)@.target == Some(uri@) {
                    &&& r is Ok
                    &&& final(self)@ == old(self)@
                    &&& final(self).sent() == old(self).sent()
                    &&& final(self).heard() == old(self).heard()
                } else {
                    &&& final(self)@.closed == after_close(old(self)@).closed
                    &&& final(self).sent() == old(self).sent() + switch_requests(old(self)@, uri@)
                    &&& final(self).heard().len() == old(self).heard().len()
                        + closing_requests(old(self)@).len() + 1
                    &&& extends(old(self).heard(), final(self).heard())
                    &&& final(self).heard().last() == Answer::Done || final(self).heard().last()
                        == Answer::Failed
                    &&& (final(self).heard().last() == Answer::Done) <==> final(self)@.target is Some
                    &&& final(self).heard().last() == Answer::Failed ==> (r matches Err(
                        BrineError::Connect(_),
                    ))
                    &&& final(self).heard().last() == Answer::Done ==> (r is Ok <==> (old(
                        self,
                    )@.target is None || final(self).heard()[old(self).heard().len() as int]
                        == Answer::Done))
                    &&& final(self).heard().last() == Answer::Done && r is Err ==> (r matches Err(
                        BrineError::Close(_),
                    ))
                    &&& final(self)@.target is Some ==> final(self)@.target == Some(uri@)
                }
            },
            final(self)@.target is Some ==> final(self)@.backend == backend_of(final(self)@.target->Some_0),
    {
        let ghost s0 = self.sent@;
        let ghost h0 = self.heard@;
        let ghost s_in = self@;
        let b = match backend_for(uri) {
            None => {
                let hook = self.shut();
                proof {
                    lemma_tail(h0, closing_answers(s_in, hook));
                }
                return Err(BrineError::UnsupportedBackend);
            },
            Some(b) => b,
        };
        if let Backend::Mysql = b {
            let hook = self.shut();
            proof {
                lemma_tail(h0, closing_answers(s_in, hook));
            }
            return Err(BrineError::DriverUnavailable(Backend::Mysql));
        }
        let wanted = String::from_str(uri);
        let same = match &self.live {
            Some(live) => live.target == wanted,
            None => false,
        };
        if same {
            return Ok(());
        }
        let ghost before = self@;
        let hook = self.shut();
        let opened = AnyConnection::open(b, uri, &mut self.sent, &mut self.heard);
        assert(self.sent@ =~= s0 + switch_requests(before, uri@));
        assert(self.heard@ =~= h0 + closing_answers(before, hook).push(outcome(opened)));
        assert(self.heard@.subrange(0, h0.len() as int) =~= h0);
        match opened {
            Err(e) => Err(e),
            Ok(connection) => {
                self.live = Some(Live { connection, target: wanted });
                hook
            },
        }
    }

    /// Closes the live connection: runs its graceful-close hook and becomes
    /// unconnected. Closing an unconnected manager succeeds and changes
    /// nothing; a failed hook is reported, and the connection is dropped all
    /// the same.
    pub fn close(&mut self) -> (r: Result<(), BrineError>)
        requires
            old(self).wf(),
        ensures
            final(self).wf(),
            final(self)@ == after_close(old(self)@),
            final(self).sent() == old(self).sent() + closing_requests(old(self)@),
            final(self).heard() == old(self).heard() + closing_answers(old(self)@, r),
            old(self)@.target is None ==> r is Ok,
            r matches Err(e) ==> e is Close,
    {
        self.shut()
    }

    /// Brings the live connection's schema up to date: creates the migration
    /// record where missing, reads it, applies the steps it lacks, then
    /// applies the backend's session settings. Returns how many steps were
    /// applied; once they are recorded, a second run applies none.
    pub fn run_migrations(&mut self) -> (r: Result<usize, BrineError>)
        requires
            old(self).wf(),
        ensures
            final(self).wf(),
            final(self)@ == old(self)@,
            old(self)@.target is None ==> r == Err::<usize, _>(BrineError::NotConnected)
                && final(self).sent() == old(self).sent() && final(self).heard() == old(self).heard(),
            old(self)@.target is Some ==> final(self).sent().len() > old(self).sent().len()
                && final(self).sent()[old(self).sent().len() as int] == plain(record_table()),
            r matches Ok(n) ==> exists|applied: Seq<String>|
                n == pending(views(applied)).len() && final(self).sent() == old(self).sent()
                    + #[trigger] migration_requests(old(self)@.backend->Some_0, views(applied))
                    && final(self).heard() == old(self).heard() + seq![Answer::Done, Answer::Texts(applied)]
                    + dones(n + setup_requests(old(self)@.backend->Some_0).len()),
            old(self)@.target is Some && r is Err ==> {
                &&& r->Err_0 is Backend || r->Err_0 is Migration
                &&& extends(old(self).sent(), final(self).sent())
                &&& extends(old(self).heard(), final(self).heard())
                &&& exists|applied: Seq<String>, undone: bool|
                    #[trigger] stopped_at(
                        migration_requests(old(self)@.backend->Some_0, views(applied)),
                        tail(old(self).sent(), final(self).sent()),
                        tail(old(self).heard(), final(self).heard()),
                        undone,
                    ) && (r->Err_0 is Migration ==> undone && tail(
                        old(self).heard(),
                        final(self).heard(),
                    )[1] == Answer::Texts(applied) && fails_one_of(
                        r->Err_0,
                        pending(views(applied)),
                    ))
            },
    {
        let ghost s0 = self.sent@;
        let ghost h0 = self.heard@;
        match &mut self.live {
            None => Err(BrineError::NotConnected),
            Some(live) => {
                let b = live.connection.kind();
                let ghost rt = plain(record_table());
                let ghost rq = plain(record_query());
                match live.connection.run_script(&mut self.sent, &mut self.heard, record_table_sql()) {
                    Ok(()) => {},
                    Err(e) => {
                        proof {
                            let reqs = migration_requests(b, views(Seq::<String>::empty()));
                            assert(seq![rt].subrange(0, 1) =~= reqs.subrange(0, 1));
                            lemma_stopped(reqs, 0, seq![rt], seq![Answer::Failed], false);
                            assert(self.sent@ =~= s0 + seq![rt]);
                            assert(self.heard@ =~= h0 + seq![Answer::Failed]);
                            lemma_tail(s0, seq![rt]);
                            lemma_tail(h0, seq![Answer::Failed]);
                            assert(b == old(self)@.backend->Some_0);
                            assert(stopped_at(reqs, tail(s0, self.sent@), tail(h0, self.heard@), false));
                            assert(extends(old(self).sent(), self.sent()));
                            assert(extends(old(self).heard(), self.heard()));
                            assert(stopped_at(
                                migration_requests(old(self)@.backend->Some_0, views(Seq::<String>::empty())),
                                tail(old(self).sent(), self.sent()),
                                tail(old(self).heard(), self.heard()),
                                false,
                            ));
                            assert(e is Backend);
                            assert(exists|applied: Seq<String>, undone: bool|
                                #[trigger] stopped_at(
                                    migration_requests(old(self)@.backend->Some_0, views(applied)),
                                    tail(old(self).sent(), self.sent()),
                                    tail(old(self).heard(), self.heard()),
                                    undone,
                                ) && (e is Migration ==> undone));
                        }
                        return Err(e);
                    },
                }
                let applied = match live.connection.load_texts(
                    &mut self.sent,
                    &mut self.heard,
                    record_query_sql(),
                ) {
                    Ok(v) => v,
                    Err(e) => {
                        proof {
                            let reqs = migration_requests(b, views(Seq::<String>::empty()));
                            assert(seq![rt, rq].subrange(0, 2) =~= reqs.subrange(0, 2));
                            lemma_stopped(reqs, 1, seq![rt, rq], seq![Answer::Done, Answer::Failed], false);
                            assert(self.sent@ =~= s0 + seq![rt, rq]);
                            assert(self.heard@ =~= h0 + seq![Answer::Done, Answer::Failed]);
                            lemma_tail(s0, seq![rt, rq]);
                            lemma_tail(h0, seq![Answer::Done, Answer::Failed]);
                            assert(b == old(self)@.backend->Some_0);
                            assert(stopped_at(reqs, tail(s0, self.sent@), tail(h0, self.heard@), false));
                            assert(stopped_at(
                                migration_requests(old(self)@.backend->Some_0, views(Seq::<String>::empty())),
                                tail(old(self).sent(), self.sent()),
                                tail(old(self).heard(), self.heard()),
                                false,
                            ));
                            assert(exists|applied: Seq<String>, undone: bool|
                                #[trigger] stopped_at(
                                    migration_requests(old(self)@.backend->Some_0, views(applied)),
                                    tail(old(self).sent(), self.sent()),
                                    tail(old(self).heard(), self.heard()),
                                    undone,
                                ) && (e is Migration ==> undone && tail(old(self).heard(), self.heard())[1]
                                    == Answer::Texts(applied) && fails_one_of(e, pending(views(applied)))));
                        }
                        return Err(e);
                    },
                };
                let ghost pre_s = seq![rt, rq];
                let ghost pre_h = seq![Answer::Done, Answer::Texts(applied@)];
                assert(self.sent@ =~= s0 + pre_s);
                assert(self.heard@ =~= h0 + pre_h);
                let ghost s1 = self.sent@;
                let ghost h1 = self.heard@;
                let ghost steps = step_requests(b, pending(views(applied@)));
                let n = match apply_pending(&mut live.connection, &mut self.sent, &mut self.heard, &applied) {
                    Ok(n) => n,
                    Err(e) => {
                        proof {
                            let st = tail(s1, self.sent@);
                            let ht = tail(h1, self.heard@);
                            lemma_extends(s1, self.sent@);
                            lemma_extends(h1, self.heard@);
                            lemma_stopped_shift(pre_s, pre_h, steps, setup_requests(b), st, ht, true);
                            assert(migration_requests(b, views(applied@)) == pre_s + steps + setup_requests(b));
                            assert(self.sent@ =~= s0 + (pre_s + st));
                            assert(self.heard@ =~= h0 + (pre_h + ht));
                            lemma_tail(s0, pre_s + st);
                            lemma_tail(h0, pre_h + ht);
                            assert((pre_h + ht)[1] == Answer::Texts(applied@));
                            assert(b == old(self)@.backend->Some_0);
                            assert(stopped_at(
                                migration_requests(b, views(applied@)),
                                tail(s0, self.sent@),
                                tail(h0, self.heard@),
                                true,
                            ));
                            assert(tail(h0, self.heard@)[1] == Answer::Texts(applied@));
                            assert(stopped_at(
                                migration_requests(old(self)@.backend->Some_0, views(applied@)),
                                tail(old(self).sent(), self.sent()),
                                tail(old(self).heard(), self.heard()),
                                true,
                            ));
                            assert(exists|applied: Seq<String>, undone: bool|
                                #[trigger] stopped_at(
                                    migration_requests(old(self)@.backend->Some_0, views(applied)),
                                    tail(old(self).sent(), self.sent()),
                                    tail(old(self).heard(), self.heard()),
                                    undone,
                                ) && (e is Migration ==> undone && tail(old(self).heard(), self.heard())[1]
                                    == Answer::Texts(applied) && fails_one_of(e, pending(views(applied)))));
                        }
                        return Err(e);
                    },
                };
                let ghost s2 = self.sent@;
                let ghost h2 = self.heard@;
                match session_setup_sql(b) {
                    Some(s) => match live.connection.run_script(&mut self.sent, &mut self.heard, s) {
                        Ok(()) => {},
                        Err(e) => {
                            proof {
                                let reqs = migration_requests(b, views(applied@));
                                let st = pre_s + steps + seq![plain(s@)];
                                let ht = pre_h + dones(n as int) + seq![Answer::Failed];
                                assert(reqs =~= st);
                                assert forall|j: int| 0 <= j < 2 + n implies ht[j] != Answer::Failed by {
                                    if j >= 2 {
                                        assert(ht[j] == dones(n as int)[j - 2]);
                                    }
                                }
                                lemma_stopped(reqs, 2 + n, st, ht, false);
                                assert(self.sent@ =~= s0 + st);
                                assert(self.heard@ =~= h0 + ht);
                                lemma_tail(s0, st);
                                lemma_tail(h0, ht);
                                assert(b == old(self)@.backend->Some_0);
                                assert(stopped_at(reqs, tail(s0, self.sent@), tail(h0, self.heard@), false));
                                assert(stopped_at(
                                    migration_requests(old(self)@.backend->Some_0, views(applied@)),
                                    tail(old(self).sent(), self.sent()),
                                    tail(old(self).heard(), self.heard()),
                                    false,
                                ));
                                assert(exists|applied: Seq<String>, undone: bool|
                                    #[trigger] stopped_at(
                                        migration_requests(old(self)@.backend->Some_0, views(applied)),
                                        tail(old(self).sent(), self.sent()),
                                        tail(old(self).heard(), self.heard()),
                                        undone,
                                    ) && (e is Migration ==> undone && tail(old(self).heard(), self.heard())[1]
                                        == Answer::Texts(applied) && fails_one_of(e, pending(views(applied)))));
                            }
                            return Err(e);
                        },
                    },
                    None => {},
                }
                assert(self.sent@ =~= s0 + migration_requests(b, views(applied@)));
                assert(self.heard@ =~= h0 + seq![Answer::Done, Answer::Texts(applied@)] + dones(
                    n + setup_requests(b).len(),
                ));
                assert(b == old(self)@.backend->Some_0);
                Ok(n)
            },
        }
    }

    /// Upserts every pair, with the per-key semantics of `set`. No pairs
    /// send nothing. Where the backend batches as a unit the pairs are
    /// written in one transaction, all or none, and a failed upsert is rolled
    /// back; elsewhere each pair is written on its own, in order, and a
    /// failure leaves the pairs before it written.
    pub fn set_many(&mut self, set_values: Vec<(String, String)>) -> (r: Result<(), BrineError>)
        requires
            old(self).wf(),
        ensures
            final(self).wf(),
            final(self)@ == old(self)@,
            old(self)@.target is None ==> r == Err::<(), _>(BrineError::NotConnected)
                && final(self).sent() == old(self).sent() && final(self).heard() == old(self).heard(),
            old(self)@.target is Some ==> (r is Ok || r matches Err(BrineError::Backend(_))),
            old(self)@.target is Some && set_values@.len() == 0 ==> r is Ok && final(self).sent()
                == old(self).sent() && final(self).heard() == old(self).heard(),
            r is Ok ==> final(self).sent() == old(self).sent() + batch_requests(
                old(self)@.backend->Some_0,
                set_values@,
            ) && final(self).heard() == old(self).heard() + dones(
                batch_requests(old(self)@.backend->Some_0, set_values@).len() as int,
            ),
            old(self)@.target is Some && r is Err ==> extends(old(self).sent(), final(self).sent())
                && extends(old(self).heard(), final(self).heard()) && (stopped_at(
                batch_requests(old(self)@.backend->Some_0, set_values@),
                tail(old(self).sent(), final(self).sent()),
                tail(old(self).heard(), final(self).heard()),
                false,
            ) || (batches_as_unit(old(self)@.backend->Some_0) && stopped_at(
                batch_requests(old(self)@.backend->Some_0, set_values@),
                tail(old(self).sent(), final(self).sent()),
                tail(old(self).heard(), final(self).heard()),
                true,
            ))),
    {
        let ghost s0 = self.sent@;
        let ghost h0 = self.heard@;
        match &mut self.live {
            None => Err(BrineError::NotConnected),
            Some(live) => {
                if set_values.len() == 0 {
                    assert(self.sent@ =~= s0 + Seq::<Request>::empty());
                    assert(self.heard@ =~= h0 + dones(0));
                    return Ok(());
                }
                let b = live.connection.kind();
                let ghost ups = upsert_requests(b, set_values@);
                if batches_as_unit_for(b) {
                    let ghost begin = plain(BEGIN_SQL@);
                    let ghost commit = plain(COMMIT_SQL@);
                    let ghost reqs = seq![begin] + ups + seq![commit];
                    assert(reqs == batch_requests(b, set_values@));
                    match live.connection.run_script(&mut self.sent, &mut self.heard, BEGIN_SQL) {
                        Ok(()) => {},
                        Err(e) => {
                            proof {
                                assert(seq![begin].subrange(0, 1) =~= reqs.subrange(0, 1));
                                lemma_stopped(reqs, 0, seq![begin], seq![Answer::Failed], false);
                                assert(self.sent@ =~= s0 + seq![begin]);
                                assert(self.heard@ =~= h0 + seq![Answer::Failed]);
                                lemma_tail(s0, seq![begin]);
                                lemma_tail(h0, seq![Answer::Failed]);
                            }
                            return Err(e);
                        },
                    }
                    let ghost s1 = self.sent@;
                    let ghost h1 = self.heard@;
                    match DieselBrine::upsert_all(
                        &mut live.connection,
                        &mut self.sent,
                        &mut self.heard,
                        &set_values,
                    ) {
                        Ok(()) => {
                            let ghost s2 = self.sent@;
                            let ghost h2 = self.heard@;
                            let r = live.connection.run_script(&mut self.sent, &mut self.heard, COMMIT_SQL);
                            proof {
                                let n = set_values@.len() as int;
                                if r is Ok {
                                    assert(self.sent@ =~= s0 + reqs);
                                    assert(self.heard@ =~= h0 + dones(n + 2));
                                } else {
                                    let ht = seq![Answer::Done] + dones(n) + seq![Answer::Failed];
                                    assert(reqs.subrange(0, n + 2) =~= reqs);
                                    assert forall|j: int| 0 <= j < n + 1 implies ht[j] != Answer::Failed by {
                                        if j >= 1 {
                                            assert(ht[j] == dones(n)[j - 1]);
                                        }
                                    }
                                    lemma_stopped(reqs, n + 1, reqs, ht, false);
                                    assert(self.sent@ =~= s0 + reqs);
                                    assert(self.heard@ =~= h0 + ht);
                                    lemma_tail(s0, reqs);
                                    lemma_tail(h0, ht);
                                }
                            }
                            r
                        },
                        Err(e) => {
                            let ghost s2 = self.sent@;
                            let ghost h2 = self.heard@;
                            let _ = live.connection.run_script(&mut self.sent, &mut self.heard, ROLLBACK_SQL);
                            proof {
                                let st = tail(s1, s2);
                                let ht = tail(h1, h2);
                                lemma_extends(s1, s2);
                                lemma_extends(h1, h2);
                                lemma_stopped_rollback(ups, st, ht, self.heard@.last());
                                lemma_stopped_shift(
                                    seq![begin],
                                    seq![Answer::Done],
                                    ups,
                                    seq![commit],
                                    st.push(plain(ROLLBACK_SQL@)),
                                    ht.push(self.heard@.last()),
                                    true,
                                );
                                assert(self.sent@ =~= s0 + (seq![begin] + st.push(plain(ROLLBACK_SQL@))));
                                assert(self.heard@ =~= h0 + (seq![Answer::Done] + ht.push(self.heard@.last())));
                                lemma_tail(s0, seq![begin] + st.push(plain(ROLLBACK_SQL@)));
                                lemma_tail(h0, seq![Answer::Done] + ht.push(self.heard@.last()));
                            }
                            Err(e)
                        },
                    }
                } else {
                    DieselBrine::upsert_all(&mut live.connection, &mut self.sent, &mut self.heard, &set_values)
                }
            },
        }
    }

    /// The rows stored under the requested keys: each requested key is
    /// read once, in the order of its first request, and kept with its value
    /// when the read found one. No keys read nothing.
    pub fn get_many(&mut self, get_keys: Vec<String>) -> (r: Result<Vec<(String, String)>, BrineError>)
        requires
            old(self).wf(),
        ensures
            final(self).wf(),
            final(self)@ == old(self)@,
            old(self)@.target is None ==> r == Err::<Vec<(String, String)>, _>(
                BrineError::NotConnected,
            ) && final(self).sent() == old(self).sent() && final(self).heard() == old(self).heard(),
            old(self)@.target is Some ==> (r is Ok || r matches Err(BrineError::Backend(_))),
            old(self)@.target is Some && get_keys@.len() == 0 ==> (r matches Ok(found) && found@.len()
                == 0) && final(self).sent() == old(self).sent() && final(self).heard() == old(self).heard(),
            r matches Ok(found) ==> exists|answers: Seq<Seq<Option<String>>>|
                answers.len() == distinct(views(get_keys@)).len() && final(self).sent() == old(
                    self,
                ).sent() + lookup_requests(old(self)@.backend->Some_0, distinct(views(get_keys@)))
                    && final(self).heard() == old(self).heard() + #[trigger] rows_answers(answers)
                    && pair_views(found@) == found_of(distinct(views(get_keys@)), answers),
            old(self)@.target is Some && r is Err ==> extends(old(self).sent(), final(self).sent())
                && extends(old(self).heard(), final(self).heard()) && stopped_at(
                lookup_requests(old(self)@.backend->Some_0, distinct(views(get_keys@))),
                tail(old(self).sent(), final(self).sent()),
                tail(old(self).heard(), final(self).heard()),
                false,
            ),
    {
        match &mut self.live {
            None => Err(BrineError::NotConnected),
            Some(live) => {
                let b = live.connection.kind();
                let wanted = crate::rows::distinct_keys(&get_keys);
                proof {
                    if get_keys@.len() == 0 {
                        assert(views(get_keys@) =~= Seq::<Seq<char>>::empty());
                        assert(views(wanted@).len() == 0);
                    }
                }
                let r = DieselBrine::fetch_found(&mut live.connection, &mut self.sent, &mut self.heard, &wanted);
                proof {
                    if get_keys@.len() == 0 {
                        if r is Ok {
                            let found = r->Ok_0;
                            let answers = choose|answers: Seq<Seq<Option<String>>>|
                                answers.len() == wanted@.len() && self.sent@ == old(self).sent@ + lookup_requests(
                                    b,
                                    views(wanted@),
                                ) && self.heard@ == old(self).heard@ + #[trigger] rows_answers(answers) && pair_views(found@) == found_of(views(wanted@), answers);
                            assert(pair_views(found@).len() == 0);
                            assert(self.sent@ =~= old(self).sent@);
                            assert(self.heard@ =~= old(self).heard@);
                        }
                    }
                }
                r
            },
        }
    }

    /// The value stored under `get_key`, or `None` when no row holds it;
    /// a failed read is reported, never taken for absence.
    pub fn get(&mut self, get_key: String) -> (r: Result<Option<String>, BrineError>)
        requires
            old(self).wf(),
        ensures
            final(self).wf(),
            final(self)@ == old(self)@,
            old(self)@.target is None ==> r == Err::<Option<String>, _>(BrineError::NotConnected)
                && final(self).sent() == old(self).sent() && final(self).heard() == old(self).heard(),
            old(self)@.target is Some ==> final(self).sent() == old(self).sent().push(lookup_request(old(self)@.backend->Some_0, get_key@)),
            old(self)@.target is Some ==> final(self).heard().len() == old(self).heard().len() + 1 && final(self).heard().drop_last() == old(self).heard() && read_result(final(self).heard().last(), r),
    {
        match &mut self.live {
            None => Err(BrineError::NotConnected),
            Some(live) => {
                let b = live.connection.kind();
                match live.connection.load_nullable_one(&mut self.sent, &mut self.heard, lookup_head_sql(b), get_key.as_str(), "") {
                    Ok(rows) => Ok(value_from_rows(rows)),
                    Err(e) => Err(e),
                }
            },
        }
    }

    /// Stores `set_value` under `set_key`, replacing the value of an existing
    /// row: one row per key, the last write wins.
    pub fn set(&mut self, set_key: String, set_value: String) -> (r: Result<(), BrineError>)
        requires
            old(self).wf(),
        ensures
            final(self).wf(),
            final(self)@ == old(self)@,
            old(self)@.target is None ==> r == Err::<(), _>(BrineError::NotConnected)
                && final(self).sent() == old(self).sent() && final(self).heard() == old(self).heard(),
            old(self)@.target is Some ==> (r is Ok || r matches Err(BrineError::Backend(_))),
            old(self)@.target is Some ==> final(self).sent() == old(self).sent().push(upsert_request(old(self)@.backend->Some_0, set_key@, set_value@)),
            old(self)@.target is Some ==> final(self).heard() == old(self).heard().push(outcome(r)),
    {
        match &mut self.live {
            None => Err(BrineError::NotConnected),
            Some(live) => {
                let b = live.connection.kind();
                match live.connection.execute_two(
                    &mut self.sent,
                    &mut self.heard,
                    upsert_head_sql(b),
                    set_key.as_str(),
                    upsert_mid_sql(b),
                    set_value.as_str(),
                    upsert_tail_sql(b),
                ) {
                    Ok(_) => Ok(()),
                    Err(e) => Err(e),
                }
            },
        }
    }

    /// Removes every row.
    pub fn clear(&mut self) -> (r: Result<(), BrineError>)
        requires
            old(self).wf(),
        ensures
            final(self).wf(),
            final(self)@ == old(self)@,
            old(self)@.target is None ==> r == Err::<(), _>(BrineError::NotConnected)
                && final(self).sent() == old(self).sent() && final(self).heard() == old(self).heard(),
            old(self)@.target is Some ==> (r is Ok || r matches Err(BrineError::Backend(_))),
            old(self)@.target is Some ==> final(self).sent() == old(self).sent().push(plain(clear_statement(old(self)@.backend->Some_0))),
            old(self)@.target is Some ==> final(self).heard() == old(self).heard().push(outcome(r)),
    {
        match &mut self.live {
            None => Err(BrineError::NotConnected),
            Some(live) => {
                let b = live.connection.kind();
                live.connection.run_script(&mut self.sent, &mut self.heard, clear_statement_sql(b))
            },
        }
    }

    /// Removes the row of `delete_key`; a key without a row is no error.
    pub fn delete(&mut self, delete_key: String) -> (r: Result<(), BrineError>)
        requires
            old(self).wf(),
        ensures
            final(self).wf(),
            final(self)@ == old(self)@,
            old(self)@.target is None ==> r == Err::<(), _>(BrineError::NotConnected)
                && final(self).sent() == old(self).sent() && final(self).heard() == old(self).heard(),
            old(self)@.target is Some ==> (r is Ok || r matches Err(BrineError::Backend(_))),
            old(self)@.target is Some ==> final(self).sent() == old(self).sent().push(delete_request(old(self)@.backend->Some_0, delete_key@)),
            old(self)@.target is Some ==> final(self).heard() == old(self).heard().push(outcome(r)),
    {
        match &mut self.live {
            None => Err(BrineError::NotConnected),
            Some(live) => {
                let b = live.connection.kind();
                match live.connection.execute_one(&mut self.sent, &mut self.heard, delete_head_sql(b), delete_key.as_str(), "") {
                    Ok(_) => Ok(()),
                    Err(e) => Err(e),
                }
            },
        }
    }

    /// Every stored key, as the backend returned them.
    pub fn keys(&mut self) -> (r: Result<Vec<String>, BrineError>)
        requires
            old(self).wf(),
        ensures
            final(self).wf(),
            final(self)@ == old(self)@,
            old(self)@.target is None ==> r == Err::<Vec<String>, _>(BrineError::NotConnected)
                && final(self).sent() == old(self).sent() && final(self).heard() == old(self).heard(),
            old(self)@.target is Some ==> (r is Ok || r matches Err(BrineError::Backend(_))),
            old(self)@.target is Some ==> final(self).sent() == old(self).sent().push(plain(keys_query(old(self)@.backend->Some_0))),
            old(self)@.target is Some ==> final(self).heard() == old(self).heard().push(texts_answer(r)),
    {
        match &mut self.live {
            None => Err(BrineError::NotConnected),
            Some(live) => {
                let b = live.connection.kind();
                live.connection.load_texts(&mut self.sent, &mut self.heard, keys_query_sql(b))
            },
        }
    }

    /// Every stored value, as the backend returned them.
    pub fn values(&mut self) -> (r: Result<Vec<String>, BrineError>)
        requires
            old(self).wf(),
        ensures
            final(self).wf(),
            final(self)@ == old(self)@,
            old(self)@.target is None ==> r == Err::<Vec<String>, _>(BrineError::NotConnected)
                && final(self).sent() == old(self).sent() && final(self).heard() == old(self).heard(),
            old(self)@.target is Some ==> (r is Ok || r matches Err(BrineError::Backend(_))),
            old(self)@.target is Some ==> final(self).sent() == old(self).sent().push(plain(values_query(old(self)@.backend->Some_0))),
            old(self)@.target is Some ==> final(self).heard() == old(self).heard().push(texts_answer(r)),
    {
        match &mut self.live {
            None => Err(BrineError::NotConnected),
            Some(live) => {
                let b = live.connection.kind();
                live.connection.load_texts(&mut self.sent, &mut self.heard, values_query_sql(b))
            },
        }
    }

    /// The number of stored rows, as the backend counted them.
    pub fn count(&mut self) -> (r: Result<i64, BrineError>)
        requires
            old(self).wf(),
        ensures
            final(self).wf(),
            final(self)@ == old(self)@,
            old(self)@.target is None ==> r == Err::<i64, _>(BrineError::NotConnected)
                && final(self).sent() == old(self).sent() && final(self).heard() == old(self).heard(),
            old(self)@.target is Some ==> (r is Ok || r matches Err(BrineError::Backend(_))),
            old(self)@.target is Some ==> final(self).sent() == old(self).sent().push(plain(count_query(old(self)@.backend->Some_0))),
            old(self)@.target is Some ==> final(self).heard() == old(self).heard().push(count_answer(r)),
    {
        match &mut self.live {
            None => Err(BrineError::NotConnected),
            Some(live) => {
                let b = live.connection.kind();
                live.connection.get_integer(&mut self.sent, &mut self.heard, count_query_sql(b))
            },
        }
    }

    /// Whether a row exists for `has_key`, checked without fetching its
    /// value. A failed check is reported, never taken for absence.
    pub fn has(&mut self, has_key: String) -> (r: Result<bool, BrineError>)
        requires
            old(self).wf(),
        ensures
            final(self).wf(),
            final(self)@ == old(self)@,
            old(self)@.target is None ==> r == Err::<bool, _>(BrineError::NotConnected)
                && final(self).sent() == old(self).sent() && final(self).heard() == old(self).heard(),
            old(self)@.target is Some ==> (r is Ok || r matches Err(BrineError::Backend(_))),
            old(self)@.target is Some ==> final(self).sent() == old(self).sent().push(exists_request(old(self)@.backend->Some_0, has_key@)),
            old(self)@.target is Some ==> final(self).heard() == old(self).heard().push(flag_answer(r)),
    {
        match &mut self.live {
            None => Err(BrineError::NotConnected),
            Some(live) => {
                let b = live.connection.kind();
                live.connection.get_bool_one(&mut self.sent, &mut self.heard, exists_head_sql(b), has_key.as_str(), exists_tail_sql(b))
            },
        }
    }

    /// Removes the rows of the given keys, one key at a time, in order;
    /// keys without a row are ignored, and no keys remove nothing.
    pub fn delete_many(&mut self, delete_keys: Vec<String>) -> (r: Result<(), BrineError>)
        requires
            old(self).wf(),
        ensures
            final(self).wf(),
            final(self)@ == old(self)@,
            old(self)@.target is None ==> r == Err::<(), _>(BrineError::NotConnected)
                && final(self).sent() == old(self).sent() && final(self).heard() == old(self).heard(),
            old(self)@.target is Some ==> (r is Ok || r matches Err(BrineError::Backend(_))),
            old(self)@.target is Some && delete_keys@.len() == 0 ==> r is Ok && final(self).sent()
                == old(self).sent() && final(self).heard() == old(self).heard(),
            r is Ok ==> final(self).sent() == old(self).sent() + delete_requests(
                old(self)@.backend->Some_0,
                views(delete_keys@),
            ) && final(self).heard() == old(self).heard() + dones(delete_keys@.len() as int),
            old(self)@.target is Some && r is Err ==> extends(old(self).sent(), final(self).sent())
                && extends(old(self).heard(), final(self).heard()) && stopped_at(
                delete_requests(old(self)@.backend->Some_0, views(delete_keys@)),
                tail(old(self).sent(), final(self).sent()),
                tail(old(self).heard(), final(self).heard()),
                false,
            ),
    {
        match &mut self.live {
            None => Err(BrineError::NotConnected),
            Some(live) => {
                let r = DieselBrine::delete_each(&mut live.connection, &mut self.sent, &mut self.heard, &delete_keys);
                proof {
                    if delete_keys@.len() == 0 {
                        assert(views(delete_keys@) =~= Seq::<Seq<char>>::empty());
                        assert(self.sent@ =~= old(self).sent@);
                        assert(self.heard@ =~= old(self).heard@);
                    }
                }
                r
            },
        }
    }
}

} // verus!
