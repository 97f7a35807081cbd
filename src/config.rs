//! Reading the database location out of its URL.

use vstd::prelude::*;

verus! {

pub open spec fn sqlite_scheme() -> Seq<char> {
    seq!['s', 'q', 'l', 'i', 't', 'e', ':']
}

/// The text with every leading "//" removed, repeatedly.
pub open spec fn without_leading_slashes(s: Seq<char>) -> Seq<char>
    decreases s.len(),
{
    if s.len() >= 2 && s[0] == '/' && s[1] == '/' {
        without_leading_slashes(s.subrange(2, s.len() as int))
    } else {
        s
    }
}

/// The file path that a `sqlite:` URL names, if any.
pub open spec fn sqlite_path_of(url: Seq<char>) -> Option<Seq<char>> {
    if url.len() >= 7 && url.subrange(0, 7) == sqlite_scheme() {
        let path = without_leading_slashes(url.subrange(7, url.len() as int));
        if path.len() == 0 {
            None
        } else {
            Some(path)
        }
    } else {
        None
    }
}

/// Relies on `str::strip_prefix`: the rest of the text after the prefix, if
/// the text starts with it.
#[verifier::external_body]
fn strip_prefix<'a>(s: &'a str, prefix: &str) -> (r: Option<&'a str>)
    ensures
        r is Some <==> (s@.len() >= prefix@.len() && s@.subrange(0, prefix@.len() as int)
            == prefix@),
        r matches Some(rest) ==> rest@ == s@.subrange(prefix@.len() as int, s@.len() as int),
{
    s.strip_prefix(prefix)
}

/// Relies on `str::trim_start_matches` with the pattern "//": every leading
/// "//" removed, repeatedly.
#[verifier::external_body]
fn trim_leading_slashes(s: &str) -> (r: &str)
    ensures
        r@ == without_leading_slashes(s@),
{
    s.trim_start_matches("//")
}

/// The file path that a `sqlite:` database URL names: what follows the scheme
/// and any leading "//", or `None` for another scheme or an empty path.
pub fn sqlite_path_from_url(database_url: &str) -> (r: Option<String>)
    ensures
        match r {
            Some(path) => sqlite_path_of(database_url@) == Some(path@),
            None => sqlite_path_of(database_url@) is None,
        },
{
    proof {
        reveal_strlit("sqlite:");
        assert("sqlite:"@ =~= sqlite_scheme());
    }
    let rest = match strip_prefix(database_url, "sqlite:") {
        Some(rest) => rest,
        None => {
            return None;
        },
    };
    let path = trim_leading_slashes(rest);
    if path.is_empty() {
        None
    } else {
        Some(path.to_owned())
    }
}

} // verus!
