//! The decisions of the authentication endpoints: the administrator read
//! from the configuration, the creation of a user, and the opening of a
//! session.

use vstd::prelude::*;
use crate::auth::models::{
    AdminInfo, SessionInfo, Sessions, User, all_ascii, bcrypt_hash, bcrypt_verify, later,
    password_matches, token_check,
};
use crate::auth::schemas::Role;
use crate::error::Error;
use crate::log::{uuid_text, uuid_to_string};
use crate::numbers::{parse_usize, parse_usize_exec};
use crate::text::chars_of;

verus! {

/// The cost with which passwords are hashed: the text read as a `u32`, or
/// bcrypt's default cost, 12, where it is not one.
pub open spec fn hashing_cost(text: Seq<char>) -> u32 {
    match parse_usize(text) {
        Some(n) => if n <= u32::MAX {
            n as u32
        } else {
            12
        },
        None => 12,
    }
}

/// The administrator, from the identifier, the password and the text of the
/// hashing cost that the configuration gives: the password is hashed at
/// that cost; where bcrypt cannot hash it the answer is
/// `AdminNotConfigured`.
pub fn admin_info(admin: String, password: &str, cost_text: &str) -> (r: Result<AdminInfo, Error>)
    ensures
        r matches Ok(a) ==> a@.admin_id == admin@ && a@.cost == hashing_cost(cost_text@)
            && all_ascii(a@.admin_hash) && bcrypt_verify(password@, a@.admin_hash) == Some(true),
        r matches Err(e) ==> e is AdminNotConfigured,
        hashing_cost(cost_text@) < 4 || hashing_cost(cost_text@) > 31 ==> r is Err,
{
    let cost: u32 = match parse_usize_exec(&chars_of(cost_text)) {
        Some(n) => if n <= 0xffff_ffffusize {
            n as u32
        } else {
            12
        },
        None => 12,
    };
    match bcrypt_hash(password, cost) {
        Ok(h) => Ok(AdminInfo::new(admin, h, cost)),
        Err(_) => Err(Error::AdminNotConfigured),
    }
}

/// `createUser`: the administrator's credentials are checked
/// (`AuthenticationBadRequest` where they do not match); then the user's
/// password is hashed at the administrator's cost (`FailedToCreateUser`
/// where bcrypt cannot hash it), and the user has the identifier and roles
/// given.
pub fn new_user(
    admin: &AdminInfo,
    admin_id: &str,
    admin_password: &str,
    user_password: &str,
    roles: Vec<Role>,
    id: u128,
) -> (r: Result<User, Error>)
    ensures
        !(all_ascii(admin@.admin_hash) && bcrypt_verify(admin_password@, admin@.admin_hash)
            == Some(true) && admin_id@ == admin@.admin_id) ==> (r matches Err(e)
            && e is AuthenticationBadRequest),
        all_ascii(admin@.admin_hash) && bcrypt_verify(admin_password@, admin@.admin_hash) == Some(
            true,
        ) && admin_id@ == admin@.admin_id ==> match r {
            Ok(u) => u.id == id && u.roles@ == roles@ && all_ascii(u.user_password@)
                && bcrypt_verify(user_password@, u.user_password@) == Some(true),
            Err(e) => e is FailedToCreateUser,
        },
{
    if !admin.is_valid_hash(admin_password, admin_id) {
        return Err(Error::AuthenticationBadRequest);
    }
    match bcrypt_hash(user_password, admin.cost()) {
        Ok(h) => Ok(User::new(id, h, roles)),
        Err(_) => Err(Error::FailedToCreateUser),
    }
}

/// How long a session stays open, in seconds.
pub open spec fn session_seconds() -> int {
    3600
}

/// `putUserSession`, once the user's hash and roles are read: where the
/// password matches the hash, a session is opened under a fresh token (the
/// bcrypt hash, at cost 4, of the text of `fresh`, or that text itself where
/// bcrypt cannot hash it), granting `roles` until an hour after `now`;
/// otherwise no session opens.
pub fn open_session(
    sessions: &mut Sessions,
    password: &str,
    hash: &str,
    roles: Vec<Role>,
    now: (i64, u32),
    fresh: u128,
) -> (r: Option<String>)
    requires
        now.0 <= i64::MAX - 3600,
    ensures
        r is Some <==> all_ascii(hash@) && bcrypt_verify(password@, hash@) == Some(true),
        r is None ==> *final(sessions) == *old(sessions),
        r matches Some(t) ==> {
            &&& final(sessions).tokens@ == old(sessions).tokens@.push(t)
            &&& final(sessions).infos@ == old(sessions).infos@.push(
                SessionInfo { expiration: ((now.0 + session_seconds()) as i64, now.1), roles },
            )
            &&& (bcrypt_verify(uuid_text(fresh), t@) == Some(true) && all_ascii(t@)) || t@
                == uuid_text(fresh)
        },
{
    if !password_matches(password, hash) {
        return None;
    }
    let text = uuid_to_string(fresh);
    let token = match bcrypt_hash(text.as_str(), 4) {
        Ok(h) => h,
        Err(_) => text,
    };
    let info = SessionInfo { expiration: (now.0 + 3600, now.1), roles };
    sessions.insert(token.clone(), info);
    Some(token)
}

/// A session just opened under a token is the one that token names: it is
/// valid at `now` for `roles` exactly when it has not expired and grants one
/// of them, whatever sessions, one for each token, were open before.
pub proof fn law_opened_session_validates(
    tokens: Seq<Seq<char>>,
    infos: Seq<SessionInfo>,
    token: Seq<char>,
    info: SessionInfo,
    roles: Seq<Role>,
    now: (i64, u32),
)
    requires
        tokens.len() == infos.len(),
    ensures
        token_check(tokens.push(token), infos.push(info), token, roles, now) == Some(
            later(info.expiration, now) && exists|a: int, b: int|
                0 <= a < roles.len() && 0 <= b < info.roles@.len() && #[trigger] roles[a]
                    == #[trigger] info.roles@[b],
        ),
{
    assert(tokens.push(token).last() == token);
    assert(crate::auth::models::session_index(tokens.push(token), token) == Some(tokens.len() as int));
    let i = tokens.len() as int;
    let pushed = infos.push(info);
    assert(pushed[i] == info);
    if exists|a: int, b: int|
        0 <= a < roles.len() && 0 <= b < info.roles@.len() && #[trigger] roles[a]
            == #[trigger] info.roles@[b] {
        let (a, b) = choose|a: int, b: int|
            0 <= a < roles.len() && 0 <= b < info.roles@.len() && #[trigger] roles[a]
                == #[trigger] info.roles@[b];
        assert(roles[a] == pushed[i].roles@[b]);
    }
}

} // verus!
