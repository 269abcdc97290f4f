//! What the store answers, computed from the rows a backend returned.
use vstd::prelude::*;

verus! {

/// The character sequences of a sequence of strings.
pub open spec fn views(s: Seq<String>) -> Seq<Seq<char>> {
    s.map_values(|x: String| x@)
}

/// The character sequence of an optional string.
pub open spec fn opt_view(o: Option<String>) -> Option<Seq<char>> {
    match o {
        Some(s) => Some(s@),
        None => None,
    }
}

/// The answer of a point read from the rows it returned: the first row's
/// value; no row, or a NULL value, is absence.
pub open spec fn first_value(rows: Seq<Option<String>>) -> Option<Seq<char>> {
    if rows.len() > 0 {
        opt_view(rows[0])
    } else {
        None
    }
}

/// `s` with every element after its first occurrence left out.
pub open spec fn distinct(s: Seq<Seq<char>>) -> Seq<Seq<char>>
    decreases s.len(),
{
    if s.len() == 0 {
        Seq::empty()
    } else {
        let d = distinct(s.drop_last());
        if d.contains(s.last()) {
            d
        } else {
            d.push(s.last())
        }
    }
}

/// The value that a batch read found for `k`; of two rows for one key the
/// later one counts.
pub open spec fn found_value(found: Seq<(String, String)>, k: Seq<char>) -> Option<Seq<char>>
    decreases found.len(),
{
    if found.len() == 0 {
        None
    } else if found.last().0@ == k {
        Some(found.last().1@)
    } else {
        found_value(found.drop_last(), k)
    }
}

/// The answer of a point read, taken from the rows the backend returned.
pub fn value_from_rows(rows: Vec<Option<String>>) -> (r: Option<String>)
    ensures
        opt_view(r) == first_value(rows@),
{
    let mut rows = rows;
    if rows.len() > 0 {
        rows.remove(0)
    } else {
        None
    }
}

/// Whether `s` is among `v`.
pub fn contains_text(v: &Vec<String>, s: &String) -> (r: bool)
    ensures
        r == views(v@).contains(s@),
{
    let mut j: usize = 0;
    while j < v.len()
        invariant
            j <= v@.len(),
            forall|i: int| 0 <= i < j ==> v@[i]@ != s@,
        decreases v@.len() - j,
    {
        if v[j] == *s {
            assert(views(v@)[j as int] == s@);
            return true;
        }
        j = j + 1;
    }
    assert forall|i: int| 0 <= i < views(v@).len() implies views(v@)[i] != s@ by {
        assert(views(v@)[i] == v@[i]@);
    }
    false
}

/// The requested keys, each once, in the order of their first request.
pub fn distinct_keys(keys: &Vec<String>) -> (r: Vec<String>)
    ensures
        views(r@) == distinct(views(keys@)),
{
    let mut out: Vec<String> = Vec::new();
    let mut i: usize = 0;
    while i < keys.len()
        invariant
            i <= keys@.len(),
            views(out@) == distinct(views(keys@.subrange(0, i as int))),
        decreases keys@.len() - i,
    {
        let ghost before = views(keys@.subrange(0, i as int));
        let ghost after = views(keys@.subrange(0, i + 1));
        assert(after.drop_last() =~= before);
        assert(after.last() == keys@[i as int]@);
        if !contains_text(&out, &keys[i]) {
            let k = keys[i].clone();
            out.push(k);
            assert(views(out@) =~= distinct(before).push(keys@[i as int]@));
        }
        i = i + 1;
    }
    assert(keys@.subrange(0, keys@.len() as int) =~= keys@);
    out
}

/// The value that a batch read found for `k`.
pub fn value_found(found: &Vec<(String, String)>, k: &String) -> (r: Option<String>)
    ensures
        opt_view(r) == found_value(found@, k@),
{
    let mut res: Option<String> = None;
    let mut j: usize = 0;
    while j < found.len()
        invariant
            j <= found@.len(),
            opt_view(res) == found_value(found@.subrange(0, j as int), k@),
        decreases found@.len() - j,
    {
        assert(found@.subrange(0, j + 1).drop_last() =~= found@.subrange(0, j as int));
        if found[j].0 == *k {
            res = Some(found[j].1.clone());
        }
        j = j + 1;
    }
    assert(found@.subrange(0, found@.len() as int) =~= found@);
    res
}

/// Completes a batch read: every requested key once, in the order of its
/// first request, with the value found for it or an explicit absence.
pub fn complete_lookup(keys: &Vec<String>, found: &Vec<(String, String)>) -> (r: Vec<(String, Option<String>)>)
    ensures
        r@.len() == distinct(views(keys@)).len(),
        forall|i: int|
            0 <= i < r@.len() ==> {
                &&& (#[trigger] r@[i]).0@ == distinct(views(keys@))[i]
                &&& opt_view(r@[i].1) == found_value(found@, r@[i].0@)
            },
{
    let wanted = distinct_keys(keys);
    let mut out: Vec<(String, Option<String>)> = Vec::new();
    let mut i: usize = 0;
    while i < wanted.len()
        invariant
            i <= wanted@.len(),
            views(wanted@) == distinct(views(keys@)),
            out@.len() == i,
            forall|j: int|
                0 <= j < i ==> {
                    &&& (#[trigger] out@[j]).0@ == wanted@[j]@
                    &&& opt_view(out@[j].1) == found_value(found@, out@[j].0@)
                },
        decreases wanted@.len() - i,
    {
        let k = wanted[i].clone();
        let v = value_found(found, &k);
        out.push((k, v));
        i = i + 1;
    }
    assert forall|j: int| 0 <= j < out@.len() implies (#[trigger] out@[j]).0@ == distinct(
        views(keys@),
    )[j] by {
        assert(views(wanted@)[j] == wanted@[j]@);
    }
    out
}

/// Every element of `s` is in `distinct(s)` and the other way round, and
/// `distinct(s)` repeats none.
pub proof fn lemma_distinct(s: Seq<Seq<char>>)
    ensures
        forall|x: Seq<char>| s.contains(x) <==> #[trigger] distinct(s).contains(x),
        distinct(s).no_duplicates(),
    decreases s.len(),
{
    if s.len() > 0 {
        lemma_distinct(s.drop_last());
        let d = distinct(s.drop_last());
        assert forall|x: Seq<char>| s.contains(x) <==> #[trigger] distinct(s).contains(x) by {
            let t = s.drop_last();
            assert(s.contains(x) <==> (t.contains(x) || x == s.last())) by {
                if s.contains(x) {
                    let i = choose|i: int| 0 <= i < s.len() && s[i] == x;
                    if i < s.len() - 1 {
                        assert(t[i] == x);
                    }
                }
                if t.contains(x) {
                    let i = choose|i: int| 0 <= i < t.len() && t[i] == x;
                    assert(s[i] == x);
                }
                if x == s.last() {
                    assert(s[s.len() - 1] == x);
                }
            }
            assert(distinct(s).contains(x) <==> (d.contains(x) || x == s.last())) by {
                if !d.contains(s.last()) {
                    let e = d.push(s.last());
                    if e.contains(x) {
                        let i = choose|i: int| 0 <= i < e.len() && e[i] == x;
                        if i < d.len() {
                            assert(d[i] == x);
                        }
                    }
                    if d.contains(x) {
                        let i = choose|i: int| 0 <= i < d.len() && d[i] == x;
                        assert(e[i] == x);
                    }
                    assert(e[d.len() as int] == s.last());
                }
            }
        }
        if !d.contains(s.last()) {
            let e = d.push(s.last());
            assert forall|i: int, j: int| 0 <= i < e.len() && 0 <= j < e.len() && i != j implies e[i]
                != e[j] by {
                if i < d.len() && j < d.len() {
                } else if i == d.len() {
                    assert(d[j] == e[j]);
                } else {
                    assert(d[i] == e[i]);
                }
            }
        }
    }
}

/// A key that no returned row carries is found absent.
pub proof fn lemma_unfound_is_absent(found: Seq<(String, String)>, k: Seq<char>)
    requires
        forall|j: int| 0 <= j < found.len() ==> (#[trigger] found[j]).0@ != k,
    ensures
        found_value(found, k) is None,
    decreases found.len(),
{
    if found.len() > 0 {
        assert(found.last() == found[found.len() - 1]);
        assert forall|j: int| 0 <= j < found.drop_last().len() implies (
        #[trigger] found.drop_last()[j]).0@ != k by {
            assert(found.drop_last()[j] == found[j]);
        }
        lemma_unfound_is_absent(found.drop_last(), k);
    }
}

/// A batch read reports every requested key exactly once, and a key for
/// which the backend returned no row is reported absent rather than dropped.
pub proof fn lemma_batch_read_reports_every_key(
    keys: Seq<Seq<char>>,
    found: Seq<(String, String)>,
    k: Seq<char>,
)
    requires
        keys.contains(k),
    ensures
        distinct(keys).contains(k),
        forall|i: int, j: int|
            0 <= i < distinct(keys).len() && 0 <= j < distinct(keys).len() && distinct(keys)[i] == k
                && distinct(keys)[j] == k ==> i == j,
        (forall|j: int| 0 <= j < found.len() ==> (#[trigger] found[j]).0@ != k) ==> found_value(
            found,
            k,
        ) is None,
{
    lemma_distinct(keys);
    if forall|j: int| 0 <= j < found.len() ==> (#[trigger] found[j]).0@ != k {
        lemma_unfound_is_absent(found, k);
    }
}

} // verus!
