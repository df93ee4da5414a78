//! Identities of callers: token claims and the bearer scheme.
use vstd::prelude::*;

verus! {

/// What a login token states.
#[derive(Debug, Clone)]
pub struct Claims {
    /// The user id (an email address).
    pub sub: String,
    /// Expiry, in Unix seconds.
    pub exp: usize,
    /// Issue time, in Unix seconds.
    pub iat: usize,
}

/// A caller whose token verified.
#[derive(Debug, Clone)]
pub struct AuthUser {
    pub user_id: String,
}

/// The token of an `Authorization` header, when it uses the bearer scheme.
pub open spec fn bearer_of(header: Seq<char>) -> Option<Seq<char>> {
    if header.len() >= 7 && header.subrange(0, 7) == "Bearer "@ {
        Some(header.subrange(7, header.len() as int))
    } else {
        None
    }
}

/// The token after `Bearer ` in an `Authorization` header.
pub fn bearer_token(header: &str) -> (r: Option<String>)
    ensures
        r matches Some(t) ==> bearer_of(header@) == Some(t@),
        r is None ==> bearer_of(header@) is None,
{
    let prefix = "Bearer ";
    proof {
        reveal_strlit("Bearer ");
    }
    let n = header.unicode_len();
    if n < 7 {
        return None;
    }
    let head = header.substring_char(0, 7);
    if !crate::text::str_eq(head, prefix) {
        return None;
    }
    let rest = header.substring_char(7, n);
    Some(rest.to_string())
}

} // verus!
