//! The store as its host sees it: a target descriptor, a connection made and
//! migrated on `connect`, and the key/value operations on it.
use vstd::prelude::*;

use crate::error::BrineError;
use crate::dialect::{
    batch_requests, batches_as_unit, clear_statement, count_query, delete_request, delete_requests, exists_request,
    keys_query, lookup_request, lookup_requests, plain, upsert_request, values_query, Request,
};
use crate::migration::{migration_requests, pending, record_table, setup_requests};
use crate::orm::{
    after_close, fails_one_of, closing_answers, closing_requests, dones, extends, found_of, outcome, pair_views, read_result,
    rows_answers, stopped_at, switch_requests, tail, texts_answer, count_answer, flag_answer,
    Answer, BrineState, DieselBrine,
};
use crate::rows::{complete_lookup, distinct, first_value, opt_view, views};
use crate::target::{backend_of, Backend};

verus! {

/// A key/value store reached through the target descriptor
/// `connection_uri`. Changing the descriptor and connecting again closes
/// the old connection before the new one opens.
pub struct BrineDB {
    pub connection_uri: String,
    connection: DieselBrine,
}

impl BrineDB {
    /// The target descriptor, as characters.
    pub closed spec fn uri(&self) -> Seq<char> {
        self.connection_uri@
    }

    /// The state of the connection manager behind the store.
    pub closed spec fn state(&self) -> BrineState {
        self.connection@
    }

    /// The connection manager behind the store is well formed.
    pub closed spec fn wf(&self) -> bool {
        self.connection.wf()
    }

    /// The requests handed to the backends, oldest first.
    pub closed spec fn sent(&self) -> Seq<Request> {
        self.connection.sent()
    }

    /// What the backends answered, one answer per request, oldest first.
    pub closed spec fn heard(&self) -> Seq<Answer> {
        self.connection.heard()
    }

    /// A store for `connection_uri`, not yet connected.
    pub fn new(connection_uri: String) -> (r: Self)
        ensures
            r.uri() == connection_uri@,
            r.state().target is None,
            r.state().closed == Seq::<Seq<char>>::empty(),
            r.sent() == Seq::<Request>::empty(),
            r.heard() == Seq::<Answer>::empty(),
            r.wf(),
    {
        BrineDB { connection_uri, connection: DieselBrine::new() }
    }

    /// Connects to `connection_uri` and brings its schema up to date.
    /// Connecting again to the same descriptor reuses the connection; to
    /// another one, closes the old connection first. A descriptor that
    /// cannot be served leaves the store unconnected. Once the connection
    /// serves the descriptor it is migrated; when it could not be opened,
    /// nothing more is sent. A failed close hook is reported as `Close` once
    /// the new connection is live and migrated.
    pub fn connect(&mut self) -> (r: Result<bool, BrineError>)
        requires
            old(self).wf(),
        ensures
            final(self).wf(),
            final(self).uri() == old(self).uri(),
            backend_of(old(self).uri()) is None ==> r == Err::<bool, _>(BrineError::UnsupportedBackend)
                && final(self).state() == after_close(old(self).state()) && final(self).sent()
                == old(self).sent() + closing_requests(old(self).state()),
            backend_of(old(self).uri()) == Some(Backend::Mysql) ==> r == Err::<bool, _>(
                BrineError::DriverUnavailable(Backend::Mysql),
            ) && final(self).state() == after_close(old(self).state()) && final(self).sent()
                == old(self).sent() + closing_requests(old(self).state()),
            r matches Err(e) ==> (e is UnsupportedBackend || e is DriverUnavailable || e is Connect
                || e is Close || e is Backend || e is Migration),
            (r matches Err(e) && e is Connect) ==> final(self).state().target is None
                && final(self).sent() == old(self).sent() + switch_requests(
                old(self).state(),
                old(self).uri(),
            ) && final(self).heard().last() == Answer::Failed,
            final(self).state().target is Some ==> final(self).state().target == Some(old(self).uri())
                && final(self).sent().len() > old(self).sent().len() + switch_requests(
                old(self).state(),
                old(self).uri(),
            ).len() && final(self).sent()[old(self).sent().len() + switch_requests(
                old(self).state(),
                old(self).uri(),
            ).len() as int] == plain(record_table()),
            r is Ok ==> r == Ok::<bool, BrineError>(true) && final(self).state().target == Some(
                old(self).uri(),
            ) && exists|applied: Seq<String>|
                final(self).sent() == old(self).sent() + switch_requests(old(self).state(), old(self).uri())
                    + #[trigger] migration_requests(backend_of(old(self).uri())->Some_0, views(applied)),
            old(self).state().target != Some(old(self).uri()) && backend_of(old(self).uri()) is Some
                && backend_of(old(self).uri()) != Some(Backend::Mysql) ==> final(self).state().closed
                == after_close(old(self).state()).closed,
    {
        let ghost start = self.sent();
        let switched = self.connection.connect(self.connection_uri.as_str());
        match switched {
            Ok(()) => {},
            Err(BrineError::Close(_)) => {},
            Err(e) => return Err(e),
        }
        let ghost mid = self.sent();
        assert(mid == start + switch_requests(old(self).state(), old(self).uri())) by {
            if old(self).state().target == Some(old(self).uri()) {
                assert(start + Seq::<Request>::empty() =~= start);
            }
        }
        let ghost mid_state = self.state();
        let ghost mid_h = self.heard();
        assert(mid_state.target == Some(old(self).uri()));
        let migrated = self.connection.run_migrations();
        proof {
            assert(self.sent()[mid.len() as int] == plain(record_table()));
        }
        match migrated {
            Ok(n) => {
                proof {
                    let b = mid_state.backend->Some_0;
                    let applied = choose|applied: Seq<String>|
                        n == pending(views(applied)).len() && self.sent() == mid
                            + #[trigger] migration_requests(b, views(applied)) && self.heard()
                            == mid_h + seq![Answer::Done, Answer::Texts(applied)] + dones(
                            n + setup_requests(b).len(),
                        );
                    assert(b == backend_of(old(self).uri())->Some_0);
                    assert(self.sent() == start + switch_requests(old(self).state(), old(self).uri())
                        + migration_requests(backend_of(old(self).uri())->Some_0, views(applied)));
                }
            },
            Err(e) => return Err(e),
        }
        match switched {
            Err(e) => Err(e),
            Ok(()) => Ok(true),
        }
    }

    /// Brings the schema of the live connection up to date.
    pub fn migrate(&mut self) -> (r: Result<(), BrineError>)
        requires
            old(self).wf(),
        ensures
            final(self).wf(),
            final(self).uri() == old(self).uri(),
            final(self).state() == old(self).state(),
            old(self).state().target is None ==> r == Err::<(), _>(BrineError::NotConnected)
                && final(self).sent() == old(self).sent() && final(self).heard() == old(self).heard(),
            old(self).state().target is Some ==> final(self).sent().len() > old(self).sent().len()
                && final(self).sent()[old(self).sent().len() as int] == plain(record_table()),
            old(self).state().target is Some ==> r is Ok || (r matches Err(e) && (e is Backend
                || e is Migration)),
            r is Ok ==> exists|applied: Seq<String>|
                final(self).sent() == old(self).sent() + #[trigger] migration_requests(
                    old(self).state().backend->Some_0,
                    views(applied),
                ) && final(self).heard() == old(self).heard() + seq![Answer::Done, Answer::Texts(applied)]
                    + dones((pending(views(applied)).len() + setup_requests(old(self).state().backend->Some_0).len()) as int),
            old(self).state().target is Some && r is Err ==> {
                &&& extends(old(self).sent(), final(self).sent())
                &&& extends(old(self).heard(), final(self).heard())
                &&& exists|applied: Seq<String>, undone: bool|
                    #[trigger] stopped_at(
                        migration_requests(old(self).state().backend->Some_0, views(applied)),
                        tail(old(self).sent(), final(self).sent()),
                        tail(old(self).heard(), final(self).heard()),
                        undone,
                    ) && (r->Err_0 is Migration ==> undone && tail(
                        old(self).heard(),
                        final(self).heard(),
                    )[1] == Answer::Texts(applied) && fails_one_of(
                        r->Err_0,
                        pending(views(applied)),
                    ))
            },
    {
        let r = self.connection.run_migrations();
        match r {
            Ok(_) => Ok(()),
            Err(e) => {
                proof {
                    if old(self).state().target is Some {
                        let b = old(self).state().backend->Some_0;
                        let st = tail(old(self).sent(), self.sent());
                        let ht = tail(old(self).heard(), self.heard());
                        let applied = choose|applied: Seq<String>|
                            exists|undone: bool|
                                stopped_at(#[trigger] migration_requests(b, views(applied)), st, ht, undone)
                                    && (e is Migration ==> undone && ht[1] == Answer::Texts(applied)
                                    && fails_one_of(e, pending(views(applied))));
                        let undone = choose|undone: bool|
                            #[trigger] stopped_at(migration_requests(b, views(applied)), st, ht, undone)
                                && (e is Migration ==> undone && ht[1] == Answer::Texts(applied)
                                && fails_one_of(e, pending(views(applied))));
                        assert(stopped_at(migration_requests(b, views(applied)), st, ht, undone));
                    }
                }
                Err(e)
            },
        }
    }

    /// The value stored under `key`, or `None`.
    pub fn get(&mut self, key: String) -> (r: Result<Option<String>, BrineError>)
        requires
            old(self).wf(),
        ensures
            final(self).wf(),
            final(self).uri() == old(self).uri(),
            final(self).state() == old(self).state(),
            old(self).state().target is None ==> r == Err::<Option<String>, _>(BrineError::NotConnected)
                && final(self).sent() == old(self).sent() && final(self).heard() == old(self).heard(),
            old(self).state().target is Some ==> final(self).sent() == old(self).sent().push(lookup_request(old(self).state().backend->Some_0, key@)),
            old(self).state().target is Some ==> final(self).heard().len() == old(self).heard().len() + 1 && final(self).heard().drop_last() == old(self).heard() && read_result(final(self).heard().last(), r),
    {
        self.connection.get(key)
    }

    /// Stores `value` under `key`, replacing any value it had.
    pub fn set(&mut self, key: String, value: String) -> (r: Result<(), BrineError>)
        requires
            old(self).wf(),
        ensures
            final(self).wf(),
            final(self).uri() == old(self).uri(),
            final(self).state() == old(self).state(),
            old(self).state().target is None ==> r == Err::<(), _>(BrineError::NotConnected)
                && final(self).sent() == old(self).sent() && final(self).heard() == old(self).heard(),
            old(self).state().target is Some ==> (r is Ok || r matches Err(BrineError::Backend(_))),
            old(self).state().target is Some ==> final(self).sent() == old(self).sent().push(upsert_request(old(self).state().backend->Some_0, key@, value@)),
            old(self).state().target is Some ==> final(self).heard() == old(self).heard().push(outcome(r)),
    {
        self.connection.set(key, value)
    }

    /// Stores every pair, as `set` does.
    pub fn set_many(&mut self, data: Vec<(String, String)>) -> (r: Result<(), BrineError>)
        requires
            old(self).wf(),
        ensures
            final(self).wf(),
            final(self).uri() == old(self).uri(),
            final(self).state() == old(self).state(),
            old(self).state().target is None ==> r == Err::<(), _>(BrineError::NotConnected)
                && final(self).sent() == old(self).sent() && final(self).heard() == old(self).heard(),
            old(self).state().target is Some ==> (r is Ok || r matches Err(BrineError::Backend(_))),
            old(self).state().target is Some && data@.len() == 0 ==> r is Ok && final(self).sent()
                == old(self).sent() && final(self).heard() == old(self).heard(),
            r is Ok ==> final(self).sent() == old(self).sent() + batch_requests(
                old(self).state().backend->Some_0,
                data@,
            ) && final(self).heard() == old(self).heard() + dones(
                batch_requests(old(self).state().backend->Some_0, data@).len() as int,
            ),
            old(self).state().target is Some && r is Err ==> extends(old(self).sent(), final(self).sent())
                && extends(old(self).heard(), final(self).heard()) && (stopped_at(
                batch_requests(old(self).state().backend->Some_0, data@),
                tail(old(self).sent(), final(self).sent()),
                tail(old(self).heard(), final(self).heard()),
                false,
            ) || (batches_as_unit(old(self).state().backend->Some_0) && stopped_at(
                batch_requests(old(self).state().backend->Some_0, data@),
                tail(old(self).sent(), final(self).sent()),
                tail(old(self).heard(), final(self).heard()),
                true,
            ))),
    {
        self.connection.set_many(data)
    }

    /// Every requested key once, in the order of its first request, with its
    /// value or an explicit `None` where no row holds it.
    pub fn get_many(&mut self, keys: Vec<String>) -> (r: Result<Vec<(String, Option<String>)>, BrineError>)
        requires
            old(self).wf(),
        ensures
            final(self).wf(),
            final(self).uri() == old(self).uri(),
            final(self).state() == old(self).state(),
            old(self).state().target is None ==> r == Err::<Vec<(String, Option<String>)>, _>(
                BrineError::NotConnected,
            ) && final(self).sent() == old(self).sent() && final(self).heard() == old(self).heard(),
            old(self).state().target is Some ==> (r is Ok || r matches Err(BrineError::Backend(_))),
            old(self).state().target is Some && keys@.len() == 0 ==> (r matches Ok(res) && res@.len()
                == 0) && final(self).sent() == old(self).sent() && final(self).heard() == old(self).heard(),
            r matches Ok(res) ==> exists|answers: Seq<Seq<Option<String>>>|
                answers.len() == distinct(views(keys@)).len() && final(self).sent() == old(
                    self,
                ).sent() + lookup_requests(old(self).state().backend->Some_0, distinct(views(keys@)))
                    && final(self).heard() == old(self).heard() + #[trigger] rows_answers(answers)
                    && res@.len() == distinct(views(keys@)).len() && forall|i: int|
                    0 <= i < res@.len() ==> (#[trigger] res@[i]).0@ == distinct(views(keys@))[i]
                        && opt_view(res@[i].1) == first_value(answers[i]),
            old(self).state().target is Some && r is Err ==> extends(old(self).sent(), final(self).sent())
                && extends(old(self).heard(), final(self).heard()) && stopped_at(
                lookup_requests(old(self).state().backend->Some_0, distinct(views(keys@))),
                tail(old(self).sent(), final(self).sent()),
                tail(old(self).heard(), final(self).heard()),
                false,
            ),
    {
        let ghost b = self.state().backend->Some_0;
        let ghost s0 = self.sent();
        let ghost h0 = self.heard();
        let found = match self.connection.get_many(keys.clone()) {
            Ok(found) => found,
            Err(e) => return Err(e),
        };
        let res = complete_lookup(&keys, &found);
        proof {
            let wanted = distinct(views(keys@));
            let answers = choose|answers: Seq<Seq<Option<String>>>|
                answers.len() == wanted.len() && self.sent() == s0 + lookup_requests(b, wanted)
                    && self.heard() == h0 + #[trigger] rows_answers(answers) && pair_views(found@)
                    == found_of(wanted, answers);
            crate::rows::lemma_distinct(views(keys@));
            assert forall|i: int| 0 <= i < res@.len() implies (#[trigger] res@[i]).0@ == wanted[i]
                && opt_view(res@[i].1) == first_value(answers[i]) by {
                crate::orm::lemma_found_value(wanted, answers, found@, i);
            }
        }
        Ok(res)
    }

    /// Removes every row.
    pub fn clear(&mut self) -> (r: Result<(), BrineError>)
        requires
            old(self).wf(),
        ensures
            final(self).wf(),
            final(self).uri() == old(self).uri(),
            final(self).state() == old(self).state(),
            old(self).state().target is None ==> r == Err::<(), _>(BrineError::NotConnected)
                && final(self).sent() == old(self).sent() && final(self).heard() == old(self).heard(),
            old(self).state().target is Some ==> (r is Ok || r matches Err(BrineError::Backend(_))),
            old(self).state().target is Some ==> final(self).sent() == old(self).sent().push(plain(clear_statement(old(self).state().backend->Some_0))),
            old(self).state().target is Some ==> final(self).heard() == old(self).heard().push(outcome(r)),
    {
        self.connection.clear()
    }

    /// Removes the row of `key`, if there is one.
    pub fn delete(&mut self, key: String) -> (r: Result<(), BrineError>)
        requires
            old(self).wf(),
        ensures
            final(self).wf(),
            final(self).uri() == old(self).uri(),
            final(self).state() == old(self).state(),
            old(self).state().target is None ==> r == Err::<(), _>(BrineError::NotConnected)
                && final(self).sent() == old(self).sent() && final(self).heard() == old(self).heard(),
            old(self).state().target is Some ==> (r is Ok || r matches Err(BrineError::Backend(_))),
            old(self).state().target is Some ==> final(self).sent() == old(self).sent().push(delete_request(old(self).state().backend->Some_0, key@)),
            old(self).state().target is Some ==> final(self).heard() == old(self).heard().push(outcome(r)),
    {
        self.connection.delete(key)
    }

    /// Removes the rows of `keys`; keys without a row are ignored.
    pub fn delete_many(&mut self, keys: Vec<String>) -> (r: Result<(), BrineError>)
        requires
            old(self).wf(),
        ensures
            final(self).wf(),
            final(self).uri() == old(self).uri(),
            final(self).state() == old(self).state(),
            old(self).state().target is None ==> r == Err::<(), _>(BrineError::NotConnected)
                && final(self).sent() == old(self).sent() && final(self).heard() == old(self).heard(),
            old(self).state().target is Some ==> (r is Ok || r matches Err(BrineError::Backend(_))),
            old(self).state().target is Some && keys@.len() == 0 ==> r is Ok && final(self).sent()
                == old(self).sent() && final(self).heard() == old(self).heard(),
            r is Ok ==> final(self).sent() == old(self).sent() + delete_requests(
                old(self).state().backend->Some_0,
                views(keys@),
            ) && final(self).heard() == old(self).heard() + dones(keys@.len() as int),
            old(self).state().target is Some && r is Err ==> extends(old(self).sent(), final(self).sent())
                && extends(old(self).heard(), final(self).heard()) && stopped_at(
                delete_requests(old(self).state().backend->Some_0, views(keys@)),
                tail(old(self).sent(), final(self).sent()),
                tail(old(self).heard(), final(self).heard()),
                false,
            ),
    {
        self.connection.delete_many(keys)
    }

    /// Every stored key.
    pub fn keys(&mut self) -> (r: Result<Vec<String>, BrineError>)
        requires
            old(self).wf(),
        ensures
            final(self).wf(),
            final(self).uri() == old(self).uri(),
            final(self).state() == old(self).state(),
            old(self).state().target is None ==> r == Err::<Vec<String>, _>(BrineError::NotConnected)
                && final(self).sent() == old(self).sent() && final(self).heard() == old(self).heard(),
            old(self).state().target is Some ==> (r is Ok || r matches Err(BrineError::Backend(_))),
            old(self).state().target is Some ==> final(self).sent() == old(self).sent().push(plain(keys_query(old(self).state().backend->Some_0))),
            old(self).state().target is Some ==> final(self).heard() == old(self).heard().push(texts_answer(r)),
    {
        self.connection.keys()
    }

    /// Every stored value.
    pub fn values(&mut self) -> (r: Result<Vec<String>, BrineError>)
        requires
            old(self).wf(),
        ensures
            final(self).wf(),
            final(self).uri() == old(self).uri(),
            final(self).state() == old(self).state(),
            old(self).state().target is None ==> r == Err::<Vec<String>, _>(BrineError::NotConnected)
                && final(self).sent() == old(self).sent() && final(self).heard() == old(self).heard(),
            old(self).state().target is Some ==> (r is Ok || r matches Err(BrineError::Backend(_))),
            old(self).state().target is Some ==> final(self).sent() == old(self).sent().push(plain(values_query(old(self).state().backend->Some_0))),
            old(self).state().target is Some ==> final(self).heard() == old(self).heard().push(texts_answer(r)),
    {
        self.connection.values()
    }

    /// The number of stored rows.
    pub fn count(&mut self) -> (r: Result<i64, BrineError>)
        requires
            old(self).wf(),
        ensures
            final(self).wf(),
            final(self).uri() == old(self).uri(),
            final(self).state() == old(self).state(),
            old(self).state().target is None ==> r == Err::<i64, _>(BrineError::NotConnected)
                && final(self).sent() == old(self).sent() && final(self).heard() == old(self).heard(),
            old(self).state().target is Some ==> (r is Ok || r matches Err(BrineError::Backend(_))),
            old(self).state().target is Some ==> final(self).sent() == old(self).sent().push(plain(count_query(old(self).state().backend->Some_0))),
            old(self).state().target is Some ==> final(self).heard() == old(self).heard().push(count_answer(r)),
    {
        self.connection.count()
    }

    /// Whether a row exists for `key`.
    pub fn has(&mut self, key: String) -> (r: Result<bool, BrineError>)
        requires
            old(self).wf(),
        ensures
            final(self).wf(),
            final(self).uri() == old(self).uri(),
            final(self).state() == old(self).state(),
            old(self).state().target is None ==> r == Err::<bool, _>(BrineError::NotConnected)
                && final(self).sent() == old(self).sent() && final(self).heard() == old(self).heard(),
            old(self).state().target is Some ==> (r is Ok || r matches Err(BrineError::Backend(_))),
            old(self).state().target is Some ==> final(self).sent() == old(self).sent().push(exists_request(old(self).state().backend->Some_0, key@)),
            old(self).state().target is Some ==> final(self).heard() == old(self).heard().push(flag_answer(r)),
    {
        self.connection.has(key)
    }

    /// Closes the connection, running its graceful-close hook; closing a
    /// store that is not connected succeeds and changes nothing.
    pub fn close(&mut self) -> (r: Result<(), BrineError>)
        requires
            old(self).wf(),
        ensures
            final(self).wf(),
            final(self).uri() == old(self).uri(),
            final(self).state() == after_close(old(self).state()),
            final(self).sent() == old(self).sent() + closing_requests(old(self).state()),
            final(self).heard() == old(self).heard() + closing_answers(old(self).state(), r),
            old(self).state().target is None ==> r is Ok,
            r matches Err(e) ==> e is Close,
    {
        self.connection.close()
    }
}

} // verus!
