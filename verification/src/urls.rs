//! Trusted boundary to the URL resolver: making playlist URIs absolute.

use vstd::prelude::*;

verus! {

/// Resolution of `relative` against `base` under the URL standard; absent
/// when `base` does not parse or the join is invalid.
pub uninterp spec fn joined_url(base: Seq<char>, relative: Seq<char>) -> Option<Seq<char>>;

/// Relies on url::Url::parse and url::Url::join: resolves `relative` against
/// `base`; the outcome depends on the two strings alone.
#[verifier::external_body]
pub fn join_url(base: &str, relative: &str) -> (r: Option<String>)
    ensures
        match r {
            Option::Some(s) => joined_url(base@, relative@) == Option::Some(s@),
            Option::None => joined_url(base@, relative@) is None,
        },
{
    match url::Url::parse(base) {
        Ok(u) => match u.join(relative) {
            Ok(j) => Some(String::from(j)),
            Err(_) => None,
        },
        Err(_) => None,
    }
}

} // verus!
