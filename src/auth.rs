//! Resolving a bearer token to its user: reading the token out of an
//! `Authorization` header, and deciding on what the session store found.
use vstd::prelude::*;
use crate::error::ApiError;
use crate::model::{AuthUser, Session, User, UserAccount};
use crate::text::{id_eq, ids_of, is_white_space};

verus! {

/// The maximal runs of characters that are not white space, in order.
pub open spec fn words_of(s: Seq<char>) -> Seq<Seq<char>>
    decreases s.len(),
{
    if s.len() == 0 {
        Seq::empty()
    } else if is_white_space(s.last()) {
        words_of(s.drop_last())
    } else if s.len() >= 2 && !is_white_space(s[s.len() - 2]) {
        let w = words_of(s.drop_last());
        w.drop_last().push(w.last().push(s.last()))
    } else {
        words_of(s.drop_last()).push(seq![s.last()])
    }
}

/// Relies on `str::split_whitespace`: the maximal runs of characters without
/// the Unicode White_Space property, in order.
#[verifier::external_body]
fn split_words(s: &str) -> (r: Vec<String>)
    ensures
        ids_of(r@) == words_of(s@),
{
    s.split_whitespace().map(|w| w.to_owned()).collect()
}

/// The token of an `Authorization` header of the form `Bearer <token>`:
/// exactly two words, the first `Bearer`.
pub fn bearer_token(header: &str) -> (r: Option<String>)
    ensures
        match r {
            Some(t) => words_of(header@).len() == 2 && words_of(header@)[0] == "Bearer"@ && t@ == words_of(header@)[1],
            None => !(words_of(header@).len() == 2 && words_of(header@)[0] == "Bearer"@),
        },
{
    let words = split_words(header);
    if words.len() != 2 {
        return None;
    }
    assert(ids_of(words@)[0] == words@[0]@ && ids_of(words@)[1] == words@[1]@);
    if id_eq(words[0].as_str(), "Bearer") {
        Some(words[1].clone())
    } else {
        None
    }
}

/// The session and user a token resolved to: the token must name a session
/// (`session`) whose user exists (`user`). Returns the session id and user.
pub fn get_user_from_token(session: Option<Session>, user: Option<User>) -> (r: Result<(String, User), ApiError>)
    ensures
        match (session, user) {
            (Some(s), Some(u)) => r == Ok::<(String, User), ApiError>((s.id, u)),
            _ => r == Err::<(String, User), ApiError>(ApiError::Unauthorized),
        },
{
    match (session, user) {
        (Some(s), Some(u)) => Ok((s.id, u)),
        _ => Err(ApiError::Unauthorized),
    }
}

/// The user a request acts as: the token must name a session (`session`)
/// whose account exists (`account`).
pub fn validate_token(session: Option<Session>, account: Option<UserAccount>) -> (r: Result<AuthUser, ApiError>)
    ensures
        match (session, account) {
            (Some(s), Some(a)) => r == Ok::<AuthUser, ApiError>(AuthUser {
                id: a.id,
                username: a.username,
                password_hash: a.password_hash,
                session: s,
            }),
            _ => r == Err::<AuthUser, ApiError>(ApiError::Unauthorized),
        },
{
    match (session, account) {
        (Some(s), Some(a)) => Ok(AuthUser { id: a.id, username: a.username, password_hash: a.password_hash, session: s }),
        _ => Err(ApiError::Unauthorized),
    }
}

} // verus!
