//! What the requests of the dialect mean for the stored entries.
//!
//! The entries are a map from key to value: one row per key. An upsert
//! writes its value under its key, a delete removes its key, a clear
//! removes every entry; reads, transaction control, close hooks and
//! schema statements leave the entries as they are. A read answers from
//! the entries. The operations' contracts fix which requests they send and
//! how each result follows from the backend's answers; the lemmas here say
//! what those requests do under this meaning, and, for a backend whose
//! answers are faithful to it, what those answers and so the results are.
use vstd::prelude::*;

use crate::dialect::{
    batch_requests, batches_as_unit, clear_statement, delete_head, delete_request, lookup_head,
    lookup_request, lookup_requests, plain, upsert_request, upsert_requests, Request, BEGIN_SQL,
    COMMIT_SQL,
};
use crate::dialect::{count_query, exists_request, keys_query, values_query};
use crate::orm::{read_result, Answer};
use crate::rows::{first_value, views};
use crate::target::Backend;

verus! {

/// What the request `r`, sent to backend `b`, does to the entries `t`.
pub open spec fn effect(b: Backend, t: Map<Seq<char>, Seq<char>>, r: Request) -> Map<
    Seq<char>,
    Seq<char>,
> {
    if r.binds.len() == 2 && r == upsert_request(b, r.binds[0], r.binds[1]) {
        t.insert(r.binds[0], r.binds[1])
    } else if r.binds.len() == 1 && r == delete_request(b, r.binds[0]) {
        t.remove(r.binds[0])
    } else if r == plain(clear_statement(b)) {
        Map::empty()
    } else {
        t
    }
}

/// The entries after the requests `rs`, in order, starting from `t`.
pub open spec fn effects(b: Backend, t: Map<Seq<char>, Seq<char>>, rs: Seq<Request>) -> Map<
    Seq<char>,
    Seq<char>,
>
    decreases rs.len(),
{
    if rs.len() == 0 {
        t
    } else {
        effect(b, effects(b, t, rs.drop_last()), rs.last())
    }
}

/// What a point read of `k` answers from the entries `t`.
pub open spec fn read_value(t: Map<Seq<char>, Seq<char>>, k: Seq<char>) -> Option<Seq<char>> {
    if t.dom().contains(k) {
        Some(t[k])
    } else {
        None
    }
}

/// The entries after writing `pairs`, in order, on top of `t`.
pub open spec fn written(t: Map<Seq<char>, Seq<char>>, pairs: Seq<(String, String)>) -> Map<
    Seq<char>,
    Seq<char>,
>
    decreases pairs.len(),
{
    if pairs.len() == 0 {
        t
    } else {
        written(t, pairs.drop_last()).insert(pairs.last().0@, pairs.last().1@)
    }
}

/// A single request acts as its effect.
pub proof fn lemma_effects_one(b: Backend, t: Map<Seq<char>, Seq<char>>, r: Request)
    ensures
        effects(b, t, seq![r]) == effect(b, t, r),
{
    assert(seq![r].drop_last() =~= Seq::<Request>::empty());
    assert(effects(b, t, Seq::<Request>::empty()) == t);
}

/// Requests sent one after the other act in order.
pub proof fn lemma_effects_append(
    b: Backend,
    t: Map<Seq<char>, Seq<char>>,
    rs: Seq<Request>,
    qs: Seq<Request>,
)
    ensures
        effects(b, t, rs + qs) == effects(b, effects(b, t, rs), qs),
    decreases qs.len(),
{
    if qs.len() == 0 {
        assert(rs + qs =~= rs);
    } else {
        assert((rs + qs).drop_last() =~= rs + qs.drop_last());
        lemma_effects_append(b, t, rs, qs.drop_last());
    }
}

/// Transaction control leaves the entries as they are.
pub proof fn lemma_transaction_control_keeps_entries(b: Backend, t: Map<Seq<char>, Seq<char>>)
    ensures
        effect(b, t, plain(BEGIN_SQL@)) == t,
        effect(b, t, plain(COMMIT_SQL@)) == t,
{
    reveal_strlit("BEGIN");
    reveal_strlit("COMMIT");
    reveal_strlit("DELETE FROM `brine`");
    reveal_strlit("DELETE FROM \"brine\"");
    assert(BEGIN_SQL@[0] != clear_statement(b)[0]);
    assert(COMMIT_SQL@[0] != clear_statement(b)[0]);
    assert(plain(BEGIN_SQL@).text[0] != plain(clear_statement(b)).text[0]);
    assert(plain(COMMIT_SQL@).text[0] != plain(clear_statement(b)).text[0]);
}

/// Point reads leave the entries as they are.
pub proof fn lemma_reads_keep_entries(b: Backend, t: Map<Seq<char>, Seq<char>>, keys: Seq<Seq<char>>)
    ensures
        effects(b, t, lookup_requests(b, keys)) == t,
    decreases keys.len(),
{
    if keys.len() > 0 {
        assert(lookup_requests(b, keys).drop_last() =~= lookup_requests(b, keys.drop_last()));
        lemma_reads_keep_entries(b, t, keys.drop_last());
        let k = keys.last();
        let r = lookup_request(b, k);
        assert(lookup_requests(b, keys).last() == r);
        reveal_strlit("SELECT `value` FROM `brine` WHERE `key` = ");
        reveal_strlit("SELECT \"value\" FROM \"brine\" WHERE \"key\" = ");
        reveal_strlit("DELETE FROM `brine` WHERE `key` = ");
        reveal_strlit("DELETE FROM \"brine\" WHERE \"key\" = ");
        assert(lookup_head(b)[0] != delete_head(b)[0]);
        assert(r.text[0] != delete_request(b, k).text[0]);
        assert(r != plain(clear_statement(b)));
    }
}

/// The upserts of `pairs` write each pair in order.
pub proof fn lemma_upserts_write(b: Backend, t: Map<Seq<char>, Seq<char>>, pairs: Seq<(String, String)>)
    ensures
        effects(b, t, upsert_requests(b, pairs)) == written(t, pairs),
    decreases pairs.len(),
{
    if pairs.len() > 0 {
        assert(upsert_requests(b, pairs).drop_last() =~= upsert_requests(b, pairs.drop_last()));
        lemma_upserts_write(b, t, pairs.drop_last());
        let r = upsert_requests(b, pairs).last();
        assert(r == upsert_request(b, pairs.last().0@, pairs.last().1@));
    }
}

/// A pair that no later pair overrides is in the written entries.
pub proof fn lemma_written_keeps_last(t: Map<Seq<char>, Seq<char>>, pairs: Seq<(String, String)>, i: int)
    requires
        0 <= i < pairs.len(),
        forall|j: int| i < j < pairs.len() ==> (#[trigger] pairs[j]).0@ != pairs[i].0@,
    ensures
        read_value(written(t, pairs), pairs[i].0@) == Some(pairs[i].1@),
    decreases pairs.len(),
{
    if i < pairs.len() - 1 {
        assert forall|j: int| i < j < pairs.drop_last().len() implies (
        #[trigger] pairs.drop_last()[j]).0@ != pairs.drop_last()[i].0@ by {
            assert(pairs.drop_last()[j] == pairs[j]);
        }
        lemma_written_keeps_last(t, pairs.drop_last(), i);
        assert(pairs.last() == pairs[pairs.len() - 1]);
    }
}

/// A value stored under a key is what a read of that key then answers.
pub proof fn lemma_set_then_get(b: Backend, t: Map<Seq<char>, Seq<char>>, k: Seq<char>, v: Seq<char>)
    ensures
        read_value(effects(b, t, seq![upsert_request(b, k, v)]), k) == Some(v),
{
    lemma_effects_one(b, t, upsert_request(b, k, v));
}

/// A second write under a key replaces the first: a read answers the
/// second value, and the key still has one entry.
pub proof fn lemma_overwrite(
    b: Backend,
    t: Map<Seq<char>, Seq<char>>,
    k: Seq<char>,
    v1: Seq<char>,
    v2: Seq<char>,
)
    ensures
        read_value(effects(b, t, seq![upsert_request(b, k, v1), upsert_request(b, k, v2)]), k)
            == Some(v2),
        effects(b, t, seq![upsert_request(b, k, v1), upsert_request(b, k, v2)]).dom() == t.dom().insert(
            k,
        ),
{
    let rs = seq![upsert_request(b, k, v1), upsert_request(b, k, v2)];
    assert(rs.drop_last() =~= seq![upsert_request(b, k, v1)]);
    lemma_effects_one(b, t, upsert_request(b, k, v1));
    let t1 = t.insert(k, v1);
    assert(effects(b, t, rs) == t1.insert(k, v2));
    assert(t1.insert(k, v2).dom() =~= t.dom().insert(k));
}

/// Deleting a key that has no entry changes nothing, and a read of it
/// answers absence.
pub proof fn lemma_delete_absent(b: Backend, t: Map<Seq<char>, Seq<char>>, k: Seq<char>)
    requires
        !t.dom().contains(k),
    ensures
        effects(b, t, seq![delete_request(b, k)]) == t,
        read_value(effects(b, t, seq![delete_request(b, k)]), k) is None,
{
    lemma_effects_one(b, t, delete_request(b, k));
    assert(t.remove(k) =~= t);
}

/// After a clear no entry is left: the count is zero and there are no keys
/// and no values.
pub proof fn lemma_clear_empties(b: Backend, t: Map<Seq<char>, Seq<char>>)
    ensures
        effects(b, t, seq![plain(clear_statement(b))]).dom() == Set::<Seq<char>>::empty(),
{
    lemma_effects_one(b, t, plain(clear_statement(b)));
}

/// A batch write ends in the same entries whether the backend applies it
/// as one unit or pair by pair: those of writing the pairs in order.
pub proof fn lemma_batch_write_end_state(
    b: Backend,
    t: Map<Seq<char>, Seq<char>>,
    pairs: Seq<(String, String)>,
)
    ensures
        effects(b, t, batch_requests(b, pairs)) == written(t, pairs),
        effects(b, t, batch_requests(b, pairs)) == effects(b, t, upsert_requests(b, pairs)),
{
    lemma_upserts_write(b, t, pairs);
    if pairs.len() == 0 {
        assert(upsert_requests(b, pairs) =~= Seq::<Request>::empty());
    } else if batches_as_unit(b) {
        let begin = seq![plain(BEGIN_SQL@)];
        let ups = upsert_requests(b, pairs);
        let commit = seq![plain(COMMIT_SQL@)];
        assert(batch_requests(b, pairs) == begin + ups + commit);
        lemma_effects_append(b, t, begin + ups, commit);
        lemma_effects_append(b, t, begin, ups);
        lemma_transaction_control_keeps_entries(b, t);
        lemma_transaction_control_keeps_entries(b, written(t, pairs));
        lemma_effects_one(b, t, plain(BEGIN_SQL@));
        lemma_effects_one(b, written(t, pairs), plain(COMMIT_SQL@));
        assert(effects(b, t, begin) == t);
    }
}

/// A batch write followed by a batch read: the reads change nothing, and
/// each key read answers what the writes left under it.
pub proof fn lemma_batch_write_then_read(
    b: Backend,
    t: Map<Seq<char>, Seq<char>>,
    pairs: Seq<(String, String)>,
    keys: Seq<Seq<char>>,
)
    ensures
        effects(b, t, batch_requests(b, pairs) + lookup_requests(b, keys)) == written(t, pairs),
{
    lemma_effects_append(b, t, batch_requests(b, pairs), lookup_requests(b, keys));
    lemma_batch_write_end_state(b, t, pairs);
    lemma_reads_keep_entries(b, written(t, pairs), keys);
}

/// After a batch write, a read of each written key answers the value of
/// its last pair; with distinct keys, every pair reads back as written.
pub proof fn lemma_batch_write_round_trip(
    b: Backend,
    t: Map<Seq<char>, Seq<char>>,
    pairs: Seq<(String, String)>,
    i: int,
)
    requires
        0 <= i < pairs.len(),
        forall|j: int| i < j < pairs.len() ==> (#[trigger] pairs[j]).0@ != pairs[i].0@,
    ensures
        read_value(effects(b, t, batch_requests(b, pairs)), pairs[i].0@) == Some(pairs[i].1@),
{
    lemma_batch_write_end_state(b, t, pairs);
    lemma_written_keeps_last(t, pairs, i);
}

/// The answer `a` to the request `r` is what the entries `t` give, as the
/// request means it: a point read answers the key's value as its first row,
/// or no such row; an existence check whether the key has an entry; a count
/// the number of entries; a read of every key or every value one row per
/// entry; any other request completes.
pub open spec fn faithful_answer(b: Backend, t: Map<Seq<char>, Seq<char>>, r: Request, a: Answer) -> bool {
    if r.binds.len() == 1 && r == lookup_request(b, r.binds[0]) {
        a matches Answer::Rows(rows) && first_value(rows) == read_value(t, r.binds[0])
    } else if r.binds.len() == 1 && r == exists_request(b, r.binds[0]) {
        a == Answer::Flag(t.dom().contains(r.binds[0]))
    } else if r == plain(count_query(b)) {
        a matches Answer::Count(n) && n == t.dom().len()
    } else if r == plain(keys_query(b)) {
        a matches Answer::Texts(ks) && ks.len() == t.dom().len() && views(ks).to_set() == t.dom()
    } else if r == plain(values_query(b)) {
        a matches Answer::Texts(vs) && vs.len() == t.dom().len()
    } else {
        a == Answer::Done
    }
}

/// A backend that held the entries `t` answered the requests `reqs` with
/// `answers`, each answer faithful to the entries as the earlier requests
/// left them.
pub open spec fn faithful(
    b: Backend,
    t: Map<Seq<char>, Seq<char>>,
    reqs: Seq<Request>,
    answers: Seq<Answer>,
) -> bool
    decreases reqs.len(),
{
    reqs.len() == answers.len() && (reqs.len() > 0 ==> faithful(
        b,
        t,
        reqs.drop_last(),
        answers.drop_last(),
    ) && faithful_answer(b, effects(b, t, reqs.drop_last()), reqs.last(), answers.last()))
}

/// A faithful log is faithful up to its last request, and its last answer
/// is faithful to the entries the earlier requests left.
proof fn lemma_faithful_step(
    b: Backend,
    t: Map<Seq<char>, Seq<char>>,
    reqs: Seq<Request>,
    answers: Seq<Answer>,
)
    requires
        faithful(b, t, reqs, answers),
        reqs.len() > 0,
    ensures
        answers.len() == reqs.len(),
        faithful(b, t, reqs.drop_last(), answers.drop_last()),
        faithful_answer(b, effects(b, t, reqs.drop_last()), reqs.last(), answers.last()),
{
}

/// The statements of different kinds differ in their text.
proof fn lemma_kinds_differ(b: Backend, k: Seq<char>, j: Seq<char>)
    ensures
        delete_request(b, k) != lookup_request(b, j),
        delete_request(b, k) != exists_request(b, j),
        lookup_request(b, k) != exists_request(b, j),
        plain(clear_statement(b)) != plain(count_query(b)),
        plain(clear_statement(b)) != plain(keys_query(b)),
        plain(clear_statement(b)) != plain(values_query(b)),
        plain(keys_query(b)) != plain(count_query(b)),
        plain(values_query(b)) != plain(count_query(b)),
{
    reveal_strlit("SELECT `value` FROM `brine` WHERE `key` = ");
    reveal_strlit("SELECT \"value\" FROM \"brine\" WHERE \"key\" = ");
    reveal_strlit("DELETE FROM `brine` WHERE `key` = ");
    reveal_strlit("DELETE FROM \"brine\" WHERE \"key\" = ");
    reveal_strlit("SELECT EXISTS (SELECT 1 FROM `brine` WHERE `key` = ");
    reveal_strlit("SELECT EXISTS (SELECT 1 FROM \"brine\" WHERE \"key\" = ");
    reveal_strlit("DELETE FROM `brine`");
    reveal_strlit("DELETE FROM \"brine\"");
    reveal_strlit("SELECT COUNT(*) FROM `brine`");
    reveal_strlit("SELECT COUNT(*) FROM \"brine\"");
    reveal_strlit("SELECT `key` FROM `brine`");
    reveal_strlit("SELECT \"key\" FROM \"brine\"");
    reveal_strlit("SELECT `value` FROM `brine`");
    reveal_strlit("SELECT \"value\" FROM \"brine\"");
    reveal_strlit("");
    reveal_strlit(")");
    assert(delete_request(b, k).text[0][0] != lookup_request(b, j).text[0][0]);
    assert(delete_request(b, k).text[0][0] != exists_request(b, j).text[0][0]);
    assert(lookup_request(b, k).text[1].len() != exists_request(b, j).text[1].len());
    assert(plain(clear_statement(b)).text[0][0] != plain(count_query(b)).text[0][0]);
    assert(plain(clear_statement(b)).text[0][0] != plain(keys_query(b)).text[0][0]);
    assert(plain(clear_statement(b)).text[0][0] != plain(values_query(b)).text[0][0]);
    assert(plain(keys_query(b)).text[0][7] != plain(count_query(b)).text[0][7]);
    assert(plain(values_query(b)).text[0][7] != plain(count_query(b)).text[0][7]);
}

/// Against a faithful backend, a read after a write of `v` under `k`
/// answers `v`: the result that `get` hands on from its answer is `v`.
pub proof fn lemma_faithful_set_then_get(
    b: Backend,
    t: Map<Seq<char>, Seq<char>>,
    k: Seq<char>,
    v: Seq<char>,
    answers: Seq<Answer>,
    r: Result<Option<String>, crate::error::BrineError>,
)
    requires
        faithful(b, t, seq![upsert_request(b, k, v), lookup_request(b, k)], answers),
        read_result(answers[1], r),
    ensures
        answers[0] == Answer::Done,
        r matches Ok(Some(x)) && x@ == v,
{
    let reqs = seq![upsert_request(b, k, v), lookup_request(b, k)];
    assert(reqs.drop_last() =~= seq![upsert_request(b, k, v)]);
    lemma_faithful_step(b, t, reqs, answers);
    lemma_faithful_step(b, t, reqs.drop_last(), answers.drop_last());
    assert(reqs.drop_last().drop_last() =~= Seq::<Request>::empty());
    assert(effects(b, t, Seq::<Request>::empty()) == t);
    lemma_effects_one(b, t, upsert_request(b, k, v));
    lemma_set_then_get(b, t, k, v);
    assert(answers.drop_last()[0] == answers[0]);
    assert(answers.drop_last().last() == answers[0]);
    assert(answers.last() == answers[1]);
}

/// Against a faithful backend, deleting a key without an entry completes,
/// and a read of it afterwards answers absence.
pub proof fn lemma_faithful_delete_absent(
    b: Backend,
    t: Map<Seq<char>, Seq<char>>,
    k: Seq<char>,
    answers: Seq<Answer>,
    r: Result<Option<String>, crate::error::BrineError>,
)
    requires
        !t.dom().contains(k),
        faithful(b, t, seq![delete_request(b, k), lookup_request(b, k)], answers),
        read_result(answers[1], r),
    ensures
        answers[0] == Answer::Done,
        r == Ok::<Option<String>, crate::error::BrineError>(None),
{
    let reqs = seq![delete_request(b, k), lookup_request(b, k)];
    assert(reqs.drop_last() =~= seq![delete_request(b, k)]);
    lemma_faithful_step(b, t, reqs, answers);
    lemma_faithful_step(b, t, reqs.drop_last(), answers.drop_last());
    assert(reqs.drop_last().drop_last() =~= Seq::<Request>::empty());
    assert(effects(b, t, Seq::<Request>::empty()) == t);
    lemma_kinds_differ(b, k, k);
    lemma_effects_one(b, t, delete_request(b, k));
    lemma_delete_absent(b, t, k);
    assert(answers.drop_last().last() == answers[0]);
    assert(answers.last() == answers[1]);
}

/// Against a faithful backend, a count after a clear answers zero, and a
/// read of every key or every value answers no row.
pub proof fn lemma_faithful_clear_then_count(
    b: Backend,
    t: Map<Seq<char>, Seq<char>>,
    answers: Seq<Answer>,
)
    requires
        faithful(
            b,
            t,
            seq![plain(clear_statement(b)), plain(count_query(b)), plain(keys_query(b)), plain(values_query(b))],
            answers,
        ),
    ensures
        answers[0] == Answer::Done,
        answers[1] == Answer::Count(0),
        answers[2] == Answer::Texts(Seq::empty()),
        answers[3] == Answer::Texts(Seq::empty()),
{
    let c = plain(clear_statement(b));
    let q = plain(count_query(b));
    let kq = plain(keys_query(b));
    let vq = plain(values_query(b));
    let reqs = seq![c, q, kq, vq];
    lemma_kinds_differ(b, Seq::empty(), Seq::empty());
    assert(reqs.drop_last() =~= seq![c, q, kq]);
    assert(reqs.drop_last().drop_last() =~= seq![c, q]);
    assert(reqs.drop_last().drop_last().drop_last() =~= seq![c]);
    assert(reqs.drop_last().drop_last().drop_last().drop_last() =~= Seq::<Request>::empty());
    lemma_faithful_step(b, t, reqs, answers);
    lemma_faithful_step(b, t, reqs.drop_last(), answers.drop_last());
    lemma_faithful_step(b, t, reqs.drop_last().drop_last(), answers.drop_last().drop_last());
    lemma_faithful_step(
        b,
        t,
        reqs.drop_last().drop_last().drop_last(),
        answers.drop_last().drop_last().drop_last(),
    );
    assert(effects(b, t, Seq::<Request>::empty()) == t);
    lemma_effects_one(b, t, c);
    lemma_clear_empties(b, t);
    let e = Map::<Seq<char>, Seq<char>>::empty();
    assert(effect(b, e, q) == e);
    assert(effect(b, e, kq) == e);
    assert(effects(b, t, seq![c, q]) == e);
    assert(effects(b, t, seq![c, q, kq]) == e);
    assert(e.dom() =~= Set::<Seq<char>>::empty());
    assert(answers.drop_last().drop_last().drop_last().last() == answers[0]);
    assert(answers.drop_last().drop_last().last() == answers[1]);
    assert(answers.drop_last().last() == answers[2]);
    assert(answers.last() == answers[3]);
    assert(effects(b, t, seq![c]) == e);
    if let Answer::Texts(ks) = answers[2] {
        assert(ks =~= Seq::<String>::empty());
    }
    if let Answer::Texts(vs) = answers[3] {
        assert(vs =~= Seq::<String>::empty());
    }
}

/// Against a faithful backend, after two writes under one key a read
/// answers the second value, and a count answers the entries before plus
/// that one key: one row for it, not two.
pub proof fn lemma_faithful_overwrite(
    b: Backend,
    t: Map<Seq<char>, Seq<char>>,
    k: Seq<char>,
    v1: Seq<char>,
    v2: Seq<char>,
    answers: Seq<Answer>,
)
    requires
        faithful(
            b,
            t,
            seq![upsert_request(b, k, v1), upsert_request(b, k, v2), lookup_request(b, k), plain(count_query(b))],
            answers,
        ),
    ensures
        answers[2] matches Answer::Rows(rows) && first_value(rows) == Some(v2),
        answers[3] == Answer::Count(t.dom().insert(k).len() as i64),
        t.dom().insert(k).len() == (answers[3]->Count_0) as int,
{
    let u1 = upsert_request(b, k, v1);
    let u2 = upsert_request(b, k, v2);
    let l = lookup_request(b, k);
    let q = plain(count_query(b));
    let reqs = seq![u1, u2, l, q];
    assert(reqs.drop_last() =~= seq![u1, u2, l]);
    assert(reqs.drop_last().drop_last() =~= seq![u1, u2]);
    lemma_faithful_step(b, t, reqs, answers);
    lemma_faithful_step(b, t, reqs.drop_last(), answers.drop_last());
    lemma_kinds_differ(b, k, k);
    lemma_overwrite(b, t, k, v1, v2);
    let t2 = effects(b, t, seq![u1, u2]);
    assert(effect(b, t2, l) == t2);
    assert(effects(b, t, seq![u1, u2, l]) == t2);
    assert(answers.drop_last().last() == answers[2]);
    assert(answers.last() == answers[3]);
}

/// Against a faithful backend, the point reads that follow a batch write
/// answer, key by key, what the writes left: for a written key the value of
/// its last pair, for any other key what the entries held before.
pub proof fn lemma_faithful_batch_read(
    b: Backend,
    t: Map<Seq<char>, Seq<char>>,
    pairs: Seq<(String, String)>,
    keys: Seq<Seq<char>>,
    answers: Seq<Answer>,
)
    requires
        faithful(b, t, batch_requests(b, pairs) + lookup_requests(b, keys), answers),
    ensures
        answers.len() == batch_requests(b, pairs).len() + keys.len(),
        forall|j: int|
            0 <= j < keys.len() ==> (answers[batch_requests(b, pairs).len() + j] matches Answer::Rows(rows)
                && first_value(rows) == read_value(written(t, pairs), #[trigger] keys[j])),
    decreases keys.len(),
{
    let w = batch_requests(b, pairs);
    if keys.len() == 0 {
        assert(lookup_requests(b, keys) =~= Seq::<Request>::empty());
        assert(w + lookup_requests(b, keys) =~= w);
        lemma_faithful_len(b, t, w, answers);
    } else {
        let all = w + lookup_requests(b, keys);
        assert(lookup_requests(b, keys).drop_last() =~= lookup_requests(b, keys.drop_last()));
        assert(all.drop_last() =~= w + lookup_requests(b, keys.drop_last()));
        lemma_faithful_step(b, t, all, answers);
        lemma_faithful_batch_read(b, t, pairs, keys.drop_last(), answers.drop_last());
        lemma_batch_write_then_read(b, t, pairs, keys.drop_last());
        assert(all.last() == lookup_request(b, keys.last()));
        assert forall|j: int| 0 <= j < keys.len() implies (answers[w.len() + j] matches Answer::Rows(rows)
            && first_value(rows) == read_value(written(t, pairs), #[trigger] keys[j])) by {
            if j < keys.len() - 1 {
                assert(keys.drop_last()[j] == keys[j]);
                assert(answers.drop_last()[w.len() + j] == answers[w.len() + j]);
            } else {
                assert(answers.last() == answers[w.len() + j]);
            }
        }
    }
}

/// A faithful log has one answer per request.
proof fn lemma_faithful_len(b: Backend, t: Map<Seq<char>, Seq<char>>, reqs: Seq<Request>, answers: Seq<Answer>)
    requires
        faithful(b, t, reqs, answers),
    ensures
        answers.len() == reqs.len(),
{
}

} // verus!
