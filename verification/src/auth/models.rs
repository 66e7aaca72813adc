//! What the server keeps of the administrator, of users and of sessions.

use vstd::prelude::*;
use crate::auth::schemas::Role;
use crate::text::chars_of;
use crate::types::strings_view;

verus! {

/// `bcrypt::verify` of a password against a bcrypt hash string: `Some` of
/// whether the password matches, or `None` where `verify` returns an error.
pub uninterp spec fn bcrypt_verify(password: Seq<char>, hash: Seq<char>) -> Option<bool>;

/// Whether every character is ASCII.
pub open spec fn all_ascii(s: Seq<char>) -> bool {
    forall|i: int| 0 <= i < s.len() ==> (#[trigger] s[i] as u32) < 128
}

/// Calls `bcrypt::verify(password, hash)`; `Ok(b)` becomes `Some(b)` and an
/// error becomes `None`. The result is named `bcrypt_verify`. `verify` slices
/// the hash by bytes and panics where such a slice would cut a character, so
/// the hash must be ASCII.
#[verifier::external_body]
pub(crate) fn verify_password(password: &str, hash: &str) -> (r: Option<bool>)
    requires
        all_ascii(hash@),
    ensures
        r == bcrypt_verify(password@, hash@),
{
    match bcrypt::verify(password, hash) {
        Ok(b) => Some(b),
        Err(_) => None,
    }
}

/// Calls `bcrypt::hash(text, cost)`, which draws a random salt. An error
/// becomes its `Debug` text. From the crate's source: a cost outside 4 to 31,
/// or a text holding the character NUL, is an error; a hash is written with
/// `$`, the two-digit cost and bcrypt's base64, so it is ASCII; and `verify`
/// of the same text against it reads the salt and cost back and gives
/// `Ok(true)`. Nothing more is promised of the hash, whose salt is random.
#[verifier::external_body]
pub(crate) fn bcrypt_hash(text: &str, cost: u32) -> (r: Result<String, String>)
    ensures
        cost < 4 || cost > 31 ==> r is Err,
        text@.contains('\0') ==> r is Err,
        r matches Ok(h) ==> all_ascii(h@) && bcrypt_verify(text@, h@) == Some(true),
{
    match bcrypt::hash(text, cost) {
        Ok(h) => Ok(h),
        Err(e) => Err(format!("{:?}", e)),
    }
}

pub(crate) fn str_is_ascii(s: &str) -> (r: bool)
    ensures
        r == all_ascii(s@),
{
    let c = chars_of(s);
    let mut i: usize = 0;
    while i < c.len()
        invariant
            c@ == s@,
            i <= c.len(),
            forall|j: int| 0 <= j < i ==> (#[trigger] c@[j] as u32) < 128,
        decreases c.len() - i,
    {
        if (c[i] as u32) >= 128 {
            return false;
        }
        i = i + 1;
    }
    true
}

/// The administrator's identifier, the bcrypt hash of the administrator's
/// password, and the cost with which user passwords are hashed.
pub struct AdminInfo {
    admin_id: String,
    admin_hash: String,
    cost: u32,
}

/// The model of `AdminInfo`: identifier, hash and cost.
pub struct AdminInfoV {
    pub admin_id: Seq<char>,
    pub admin_hash: Seq<char>,
    pub cost: u32,
}

impl View for AdminInfo {
    type V = AdminInfoV;

    closed spec fn view(&self) -> AdminInfoV {
        AdminInfoV { admin_id: self.admin_id@, admin_hash: self.admin_hash@, cost: self.cost }
    }
}

impl AdminInfo {
    pub fn new(id: String, hash: String, cost: u32) -> (r: Self)
        ensures
            r@.admin_id == id@,
            r@.admin_hash == hash@,
            r@.cost == cost,
    {
        Self { admin_id: id, admin_hash: hash, cost }
    }

    /// Whether `pswd` matches the administrator's hash and `id` is the
    /// administrator's identifier; a hash that bcrypt cannot read, or that is
    /// not ASCII, matches no password.
    pub fn is_valid_hash(&self, pswd: &str, id: &str) -> (r: bool)
        ensures
            !all_ascii(self@.admin_hash) ==> !r,
            all_ascii(self@.admin_hash) ==> r == match bcrypt_verify(pswd@, self@.admin_hash) {
                Some(b) => b && id@ == self@.admin_id,
                None => false,
            },
    {
        if !str_is_ascii(self.admin_hash.as_str()) {
            return false;
        }
        match verify_password(pswd, self.admin_hash.as_str()) {
            Some(b) => b && crate::text::str_eq(id, self.admin_id.as_str()),
            None => false,
        }
    }

    /// Whether the administrator's hash is ASCII, as every hash that bcrypt
    /// writes is, so that `is_valid_hash` may be asked.
    pub fn has_ascii_hash(&self) -> (r: bool)
        ensures
            r == all_ascii(self@.admin_hash),
    {
        str_is_ascii(self.admin_hash.as_str())
    }

    pub fn cost(&self) -> (r: u32)
        ensures
            r == self@.cost,
    {
        self.cost
    }
}

/// A user as written to the users' log: identifier, password hash, roles.
pub struct User {
    pub id: u128,
    pub user_password: String,
    pub roles: Vec<Role>,
}

impl User {
    pub fn new(id: u128, user_password: String, roles: Vec<Role>) -> (r: Self)
        ensures
            r.id == id,
            r.user_password == user_password,
            r.roles == roles,
    {
        Self { id, user_password, roles }
    }
}

/// A line of the users' log: identifier, password hash, roles, and the date
/// (seconds and nanoseconds since the Unix epoch) at which it was written.
pub struct UserRegistry {
    pub id: u128,
    pub hash: String,
    pub roles: Vec<Role>,
    pub date: (i64, u32),
}

impl UserRegistry {
    /// The hash and roles of the user.
    pub fn context(self) -> (r: (String, Vec<Role>))
        ensures
            r.0 == self.hash,
            r.1 == self.roles,
    {
        (self.hash, self.roles)
    }
}

/// An open session: when it expires (seconds and nanoseconds since the Unix
/// epoch) and the roles it grants.
pub struct SessionInfo {
    pub expiration: (i64, u32),
    pub roles: Vec<Role>,
}

/// Whether instant `a` is later than instant `b`.
pub open spec fn later(a: (i64, u32), b: (i64, u32)) -> bool {
    a.0 > b.0 || (a.0 == b.0 && a.1 > b.1)
}

/// Calls `chrono::Utc::now()`: the seconds and nanoseconds of the present
/// instant. Nothing is promised of them.
#[verifier::external_body]
pub(crate) fn utc_now() -> (r: (i64, u32)) {
    let now = chrono::Utc::now();
    (now.timestamp(), now.timestamp_subsec_nanos())
}

impl SessionInfo {
    pub fn new(expiration: (i64, u32), roles: Vec<Role>) -> (r: Self)
        ensures
            r.expiration == expiration,
            r.roles == roles,
    {
        Self { expiration, roles }
    }

    /// Whether the session grants one of `roles`.
    pub fn is_valid_role(&self, roles: &Vec<Role>) -> (r: bool)
        ensures
            r == exists|i: int, j: int|
                0 <= i < roles@.len() && 0 <= j < self.roles@.len() && #[trigger] roles@[i]
                    == #[trigger] self.roles@[j],
    {
        let mut i: usize = 0;
        while i < roles.len()
            invariant
                i <= roles.len(),
                forall|a: int, b: int|
                    0 <= a < i && 0 <= b < self.roles@.len() ==> #[trigger] roles@[a]
                        != #[trigger] self.roles@[b],
            decreases roles.len() - i,
        {
            let mut j: usize = 0;
            while j < self.roles.len()
                invariant
                    i < roles.len(),
                    j <= self.roles.len(),
                    forall|a: int, b: int|
                        0 <= a < i && 0 <= b < self.roles@.len() ==> #[trigger] roles@[a]
                            != #[trigger] self.roles@[b],
                    forall|b: int| 0 <= b < j ==> roles@[i as int] != #[trigger] self.roles@[b],
                decreases self.roles.len() - j,
            {
                if roles[i] == self.roles[j] {
                    assert(roles@[i as int] == self.roles@[j as int]);
                    return true;
                }
                j = j + 1;
            }
            i = i + 1;
        }
        false
    }

    /// Whether the session is still open at instant `now`.
    pub fn is_valid_date_at(&self, now: (i64, u32)) -> (r: bool)
        ensures
            r == later(self.expiration, now),
    {
        self.expiration.0 > now.0 || (self.expiration.0 == now.0 && self.expiration.1 > now.1)
    }

    /// Whether the session is still open now; the present instant is read
    /// from the clock.
    pub fn is_valid_date(&self) -> (r: bool)
        ensures
            exists|now: (i64, u32)| r == later(self.expiration, now),
    {
        let now = utc_now();
        self.is_valid_date_at(now)
    }
}

/// The open sessions, by token; a token given again replaces the session it
/// named.
pub struct Sessions {
    pub tokens: Vec<String>,
    pub infos: Vec<SessionInfo>,
}

/// The position of the latest session of the token, if any.
pub open spec fn session_index(tokens: Seq<Seq<char>>, token: Seq<char>) -> Option<int>
    decreases tokens.len(),
{
    if tokens.len() == 0 {
        None
    } else if tokens.last() == token {
        Some(tokens.len() - 1)
    } else {
        session_index(tokens.drop_last(), token)
    }
}

/// Whether the session of a token grants one of the roles at instant `now`:
/// `None` where there is no such session.
pub open spec fn token_check(
    tokens: Seq<Seq<char>>,
    infos: Seq<SessionInfo>,
    token: Seq<char>,
    roles: Seq<Role>,
    now: (i64, u32),
) -> Option<bool> {
    match session_index(tokens, token) {
        Some(i) => Some(later(infos[i].expiration, now) && exists|a: int, b: int|
            0 <= a < roles.len() && 0 <= b < infos[i].roles@.len() && #[trigger] roles[a]
                == #[trigger] infos[i].roles@[b]),
        None => None,
    }
}

impl Sessions {
    pub fn new() -> (r: Sessions)
        ensures
            r.tokens@.len() == 0,
            r.infos@.len() == 0,
    {
        Sessions { tokens: Vec::new(), infos: Vec::new() }
    }

    /// Opens a session under `token`.
    pub fn insert(&mut self, token: String, info: SessionInfo)
        ensures
            final(self).tokens@ == old(self).tokens@.push(token),
            final(self).infos@ == old(self).infos@.push(info),
    {
        self.tokens.push(token);
        self.infos.push(info);
    }

    /// Whether the session of `token` is still open at `now` and grants one of
    /// `roles`; `None` without a token or without such a session.
    pub fn validate_token_at(&self, token: Option<&str>, roles: &Vec<Role>, now: (i64, u32)) -> (r:
        Option<bool>)
        requires
            self.tokens@.len() == self.infos@.len(),
        ensures
            token is None ==> r is None,
            token matches Some(t) ==> r == token_check(
                strings_view(self.tokens@),
                self.infos@,
                t@,
                roles@,
                now,
            ),
    {
        let t = match token {
            None => {
                return None;
            },
            Some(t) => t,
        };
        let ghost tv = strings_view(self.tokens@);
        let mut i = self.tokens.len();
        assert(tv.subrange(0, i as int) =~= tv);
        while i > 0
            invariant
                token == Some(t),
                i <= self.tokens@.len(),
                self.tokens@.len() == self.infos@.len(),
                tv == strings_view(self.tokens@),
                session_index(tv, t@) == session_index(tv.subrange(0, i as int), t@),
            decreases i,
        {
            let ghost pre = tv.subrange(0, i as int);
            assert(pre.drop_last() =~= tv.subrange(0, i - 1));
            assert(pre.last() == self.tokens@[i - 1]@);
            if crate::text::str_eq(self.tokens[i - 1].as_str(), t) {
                let info = &self.infos[i - 1];
                let date = info.is_valid_date_at(now);
                let role = info.is_valid_role(roles);
                return Some(date && role);
            }
            i = i - 1;
        }
        None
    }

    /// `validate_token_at` the present instant, read from the clock.
    pub fn validate_token(&self, token: Option<&str>, roles: &Vec<Role>) -> (r: Option<bool>)
        requires
            self.tokens@.len() == self.infos@.len(),
        ensures
            token is None ==> r is None,
            token matches Some(t) ==> exists|now: (i64, u32)|
                r == token_check(strings_view(self.tokens@), self.infos@, t@, roles@, now),
    {
        let now = utc_now();
        self.validate_token_at(token, roles, now)
    }
}

/// Whether a user's password opens a session: it matches the hash the user
/// was registered with.
pub fn password_matches(password: &str, hash: &str) -> (r: bool)
    ensures
        all_ascii(hash@) ==> r == (bcrypt_verify(password@, hash@) == Some(true)),
        !all_ascii(hash@) ==> !r,
{
    if !str_is_ascii(hash) {
        return false;
    }
    match verify_password(password, hash) {
        Some(b) => b,
        None => false,
    }
}

} // verus!
