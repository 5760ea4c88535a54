//! The decisions of chukei's own service session: what a login reply
//! means, when a statement's reply asks for a fresh login, and the role
//! statement run after logging in.
use crate::error::Error;
use crate::text::str_eq;
use vstd::prelude::*;
use vstd::string::StringExecFns;

verus! {

/// What a login reply gives: the session token when `success` is true and
/// a token came back; otherwise the rejection, with the reply's message
/// (`unknown` without one), or the missing token.
pub open spec fn login_outcome(
    success: Option<bool>,
    message: Option<Seq<char>>,
    token: Option<Seq<char>>,
) -> Result<Seq<char>, Seq<char>> {
    if success != Some(true) {
        Err(
            "service login rejected: "@ + match message {
                Some(m) => m,
                None => "unknown"@,
            },
        )
    } else {
        match token {
            Some(t) => Ok(t),
            None => Err("service login: no token in response"@),
        }
    }
}

/// The token of a login reply read as its `success` flag, its `message`
/// and its `data.token`; an `Auth` error where the login failed.
pub fn login_token(success: Option<bool>, message: Option<&str>, token: Option<&str>) -> (r: Result<
    String,
    Error,
>)
    ensures
        match login_outcome(
            success,
            match message {
                Some(m) => Some(m@),
                None => None,
            },
            match token {
                Some(t) => Some(t@),
                None => None,
            },
        ) {
            Ok(t) => r matches Ok(s) && s@ == t,
            Err(m) => r matches Err(Error::Auth(e)) && e@ == m,
        },
{
    let ok = match success {
        Some(b) => b,
        None => false,
    };
    if !ok {
        let mut m = String::from_str("service login rejected: ");
        match message {
            Some(text) => m.append(text),
            None => m.append("unknown"),
        }
        return Err(Error::Auth(m));
    }
    match token {
        Some(t) => Ok(String::from_str(t)),
        None => Err(Error::Auth(String::from_str("service login: no token in response"))),
    }
}

/// Snowflake's code for an expired session.
pub open spec fn expired_code(code: Option<Seq<char>>) -> bool {
    code == Some("390112"@)
}

/// A statement's reply with this `code` asks for a fresh login and one
/// retry.
pub fn session_expired(code: Option<&str>) -> (r: bool)
    ensures
        r == expired_code(
            match code {
                Some(c) => Some(c@),
                None => None,
            },
        ),
{
    match code {
        Some(c) => str_eq(c, "390112"),
        None => false,
    }
}

/// `USE ROLE role`, run after a login when a role is configured.
pub fn use_role_statement(role: &str) -> (r: String)
    ensures
        r@ == "USE ROLE "@ + role@,
{
    let mut s = String::from_str("USE ROLE ");
    s.append(role);
    s
}

} // verus!
