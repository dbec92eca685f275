//! The identity that a request carries, once its token has been checked.

use vstd::prelude::*;
use crate::error::{ApiError, ErrorKind};

verus! {

/// What a token says of its bearer.
#[derive(Debug, PartialEq, Eq)]
pub struct Claims {
    /// The login name.
    pub sub: String,
    pub user_id: i64,
    pub is_admin: bool,
    /// When the token ends, in seconds since the epoch.
    pub exp: usize,
    /// When the token was issued, in seconds since the epoch.
    pub iat: usize,
}

/// The bearer of a request whose token was accepted.
#[derive(Debug, PartialEq, Eq)]
pub struct AuthUser(pub Claims);

/// The number of seconds in an hour.
pub const SECONDS_PER_HOUR: u64 = 3600;

impl Claims {
    /// The claims of a token issued at `now` (seconds since the epoch) that
    /// is good for `expiry_hours` hours, or `None` where the end of that
    /// time cannot be written down.
    pub fn issue(username: &str, user_id: i64, is_admin: bool, now: u64, expiry_hours: u64) -> (r: Option<
        Claims,
    >)
        ensures
            match r {
                Some(c) => {
                    &&& c.sub@ == username@
                    &&& c.user_id == user_id
                    &&& c.is_admin == is_admin
                    &&& c.iat == now
                    &&& c.exp == now + expiry_hours * 3600
                },
                None => now + expiry_hours * 3600 > usize::MAX,
            },
    {
        let span = match expiry_hours.checked_mul(SECONDS_PER_HOUR) {
            Some(s) => s,
            None => {
                return None;
            },
        };
        let end = match now.checked_add(span) {
            Some(e) => e,
            None => {
                return None;
            },
        };
        if end > usize::MAX as u64 {
            return None;
        }
        Some(Claims { sub: username.to_string(), user_id, is_admin, exp: end as usize, iat: now as usize })
    }
}

/// The words in front of the token in the header of a request.
pub open spec fn bearer_prefix() -> Seq<char> {
    "Bearer "@
}

/// A request without a token, or with one that was not accepted, is
/// refused with these words.
pub open spec fn unauthorized<T>(r: Result<T, ApiError>, why: Seq<char>) -> bool {
    r is Err && r->Err_0.spec_kind() == ErrorKind::Unauthorized && r->Err_0.detail() == why
}

/// The token that a request carries in its authorization header: what
/// stands behind the word `Bearer` and one blank.
pub fn bearer_token(header: Option<&str>) -> (r: Result<String, ApiError>)
    ensures
        header is None ==> unauthorized(r, "Missing authorization header"@),
        header is Some && !bearer_prefix().is_prefix_of(header->0@) ==> unauthorized(
            r,
            "Invalid authorization format"@,
        ),
        header is Some && bearer_prefix().is_prefix_of(header->0@) ==> r is Ok && r->Ok_0@
            == header->0@.skip(7),
{
    proof {
        reveal_strlit("Bearer ");
    }
    let text = match header {
        Some(t) => t,
        None => {
            return Err(ApiError::Unauthorized("Missing authorization header".to_string()));
        },
    };
    let n = text.unicode_len();
    let marked = n >= 7 && text.get_char(0) == 'B' && text.get_char(1) == 'e' && text.get_char(2) == 'a'
        && text.get_char(3) == 'r' && text.get_char(4) == 'e' && text.get_char(5) == 'r' && text.get_char(
        6,
    ) == ' ';
    if !marked {
        proof {
            if bearer_prefix().is_prefix_of(text@) {
                assert(forall|i: int| 0 <= i < 7 ==> text@[i] == bearer_prefix()[i]);
            }
        }
        return Err(ApiError::Unauthorized("Invalid authorization format".to_string()));
    }
    assert(bearer_prefix() =~= text@.subrange(0, 7));
    let token = text.substring_char(7, n);
    assert(token@ =~= text@.skip(7));
    Ok(token.to_string())
}

impl AuthUser {
    /// The bearer of a request, given what checking its token yielded.
    pub fn accept(checked: Option<Claims>) -> (r: Result<AuthUser, ApiError>)
        ensures
            checked is None ==> unauthorized(r, "Invalid or expired token"@),
            checked is Some ==> r is Ok && r->Ok_0.0 == checked->0,
    {
        match checked {
            Some(claims) => Ok(AuthUser(claims)),
            None => Err(ApiError::Unauthorized("Invalid or expired token".to_string())),
        }
    }
}

/// Lets an administrator pass and refuses everyone else.
pub fn require_admin(claims: &Claims) -> (r: Result<(), ApiError>)
    ensures
        claims.is_admin ==> r is Ok,
        !claims.is_admin ==> r is Err && r->Err_0.spec_kind() == ErrorKind::Forbidden
            && r->Err_0.detail() == "Admin access required"@,
{
    if !claims.is_admin {
        return Err(ApiError::Forbidden("Admin access required".to_string()));
    }
    Ok(())
}

} // verus!
