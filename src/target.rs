use vstd::prelude::*;

verus! {

/// The relational engine families a target descriptor can name.
#[derive(Debug, Clone, Copy, PartialEq, Eq, Structural)]
pub enum Backend {
    Postgres,
    Mysql,
    Sqlite,
}

/// `p` is a prefix of `s`.
pub open spec fn has_prefix(s: Seq<char>, p: Seq<char>) -> bool {
    p.len() <= s.len() && s.subrange(0, p.len() as int) == p
}

/// The backend family that a target descriptor's scheme prefix selects.
pub open spec fn backend_of(uri: Seq<char>) -> Option<Backend> {
    if has_prefix(uri, "postgres"@) {
        Some(Backend::Postgres)
    } else if has_prefix(uri, "mysql"@) {
        Some(Backend::Mysql)
    } else if has_prefix(uri, "sqlite"@) {
        Some(Backend::Sqlite)
    } else {
        None
    }
}

/// Whether `s` starts with `p`, character by character.
pub fn starts_with(s: &str, p: &str) -> (r: bool)
    ensures
        r == has_prefix(s@, p@),
{
    let n = p.unicode_len();
    let m = s.unicode_len();
    if n > m {
        return false;
    }
    let mut i: usize = 0;
    while i < n
        invariant
            n == p@.len(),
            m == s@.len(),
            n <= m,
            i <= n,
            forall|j: int| 0 <= j < i ==> s@[j] == p@[j],
        decreases n - i,
    {
        if s.get_char(i) != p.get_char(i) {
            assert(s@.subrange(0, n as int)[i as int] != p@[i as int]);
            return false;
        }
        i = i + 1;
    }
    assert(s@.subrange(0, n as int) =~= p@);
    true
}

/// Selects the backend family from the target descriptor's scheme prefix.
pub fn backend_for(uri: &str) -> (r: Option<Backend>)
    ensures
        r == backend_of(uri@),
{
    if starts_with(uri, "postgres") {
        Some(Backend::Postgres)
    } else if starts_with(uri, "mysql") {
        Some(Backend::Mysql)
    } else if starts_with(uri, "sqlite") {
        Some(Backend::Sqlite)
    } else {
        None
    }
}

} // verus!
