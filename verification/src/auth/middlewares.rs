//! Which sessions may reach the endpoints: `/wql/tx` asks for the role
//! `Write`, `/wql/query` for `Read` and `/entity-history` for `History`;
//! `User` opens all three.

use vstd::prelude::*;
use crate::auth::models::{Sessions, token_check, utc_now};
use crate::auth::schemas::Role;
use crate::error::Error;
use crate::text::{chars_of, starts_with, starts_with_chars};
use crate::types::strings_view;

verus! {

/// The roles, one of which a session needs, for the WQL endpoint at `path`;
/// `None` where the path is not guarded.
pub open spec fn wql_roles(path: Seq<char>) -> Option<Seq<Role>> {
    if starts_with(path, "/wql/tx"@) {
        Some(seq![Role::Write, Role::User])
    } else if starts_with(path, "/wql/query"@) {
        Some(seq![Role::Read, Role::User])
    } else {
        None
    }
}

/// The roles, one of which a session needs, for the history endpoint at
/// `path`; `None` where the path is not guarded.
pub open spec fn history_roles(path: Seq<char>) -> Option<Seq<Role>> {
    if starts_with(path, "/entity-history"@) {
        Some(seq![Role::History, Role::User])
    } else {
        None
    }
}

/// A request that needs one of `roles` (none where `None`) is let through at
/// `now`: the session of its token is open and grants one of them.
pub open spec fn admitted(
    sessions: &Sessions,
    roles: Option<Seq<Role>>,
    token: Seq<char>,
    now: (i64, u32),
) -> bool {
    match roles {
        None => true,
        Some(rs) => token_check(strings_view(sessions.tokens@), sessions.infos@, token, rs, now)
            == Some(true),
    }
}

fn let_through(sessions: &Sessions, roles: Option<Vec<Role>>, token: &str, now: (i64, u32)) -> (r: Result<
    (),
    Error,
>)
    requires
        sessions.tokens@.len() == sessions.infos@.len(),
    ensures
        r is Ok <==> admitted(
            sessions,
            match roles {
                Some(v) => Some(v@),
                None => None,
            },
            token@,
            now,
        ),
        r matches Err(e) ==> e is AuthenticationBadRequest,
{
    match roles {
        None => Ok(()),
        Some(rs) => match sessions.validate_token_at(Some(token), &rs, now) {
            Some(true) => Ok(()),
            _ => Err(Error::AuthenticationBadRequest),
        },
    }
}

/// Whether a request to the WQL endpoint at `path`, with the bearer `token`,
/// is let through at `now` (see `wql_roles`); `AuthenticationBadRequest`
/// where it is not.
pub fn wql_validator_at(sessions: &Sessions, path: &str, token: &str, now: (i64, u32)) -> (r:
    Result<(), Error>)
    requires
        sessions.tokens@.len() == sessions.infos@.len(),
    ensures
        r is Ok <==> admitted(sessions, wql_roles(path@), token@, now),
        r matches Err(e) ==> e is AuthenticationBadRequest,
{
    let p = chars_of(path);
    let roles = if starts_with_chars(&p, &chars_of("/wql/tx")) {
        let v = vec![Role::Write, Role::User];
        assert(v@ =~= seq![Role::Write, Role::User]);
        Some(v)
    } else if starts_with_chars(&p, &chars_of("/wql/query")) {
        let v = vec![Role::Read, Role::User];
        assert(v@ =~= seq![Role::Read, Role::User]);
        Some(v)
    } else {
        None
    };
    let_through(sessions, roles, token, now)
}

/// `wql_validator_at` the present instant, read from the clock.
pub fn wql_validator(sessions: &Sessions, path: &str, token: &str) -> (r: Result<(), Error>)
    requires
        sessions.tokens@.len() == sessions.infos@.len(),
    ensures
        exists|now: (i64, u32)| (r is Ok <==> admitted(sessions, wql_roles(path@), token@, now)),
        r matches Err(e) ==> e is AuthenticationBadRequest,
{
    let now = utc_now();
    wql_validator_at(sessions, path, token, now)
}

/// Whether a request to the history endpoint at `path`, with the bearer
/// `token`, is let through at `now` (see `history_roles`);
/// `AuthenticationBadRequest` where it is not.
pub fn history_validator_at(sessions: &Sessions, path: &str, token: &str, now: (i64, u32)) -> (r:
    Result<(), Error>)
    requires
        sessions.tokens@.len() == sessions.infos@.len(),
    ensures
        r is Ok <==> admitted(sessions, history_roles(path@), token@, now),
        r matches Err(e) ==> e is AuthenticationBadRequest,
{
    let p = chars_of(path);
    let roles = if starts_with_chars(&p, &chars_of("/entity-history")) {
        let v = vec![Role::History, Role::User];
        assert(v@ =~= seq![Role::History, Role::User]);
        Some(v)
    } else {
        None
    };
    let_through(sessions, roles, token, now)
}

/// `history_validator_at` the present instant, read from the clock.
pub fn history_validator(sessions: &Sessions, path: &str, token: &str) -> (r: Result<(), Error>)
    requires
        sessions.tokens@.len() == sessions.infos@.len(),
    ensures
        exists|now: (i64, u32)| (r is Ok <==> admitted(sessions, history_roles(path@), token@, now)),
        r matches Err(e) ==> e is AuthenticationBadRequest,
{
    let now = utc_now();
    history_validator_at(sessions, path, token, now)
}

} // verus!
