//! The bodies of the requests that manage users.

use vstd::prelude::*;

verus! {

/// What a user may do.
#[derive(Debug, PartialEq, Eq, Structural, Clone, Copy)]
pub enum Role {
    User,
    Read,
    Write,
    History,
}

/// The password and roles of a user to create.
#[derive(Debug)]
pub struct UserInfo {
    pub user_password: String,
    pub role: Vec<Role>,
}

/// A request, made with the administrator's credentials, to create a user.
#[derive(Debug)]
pub struct CreateUserWithAdmin {
    pub admin_id: String,
    pub admin_password: String,
    pub user_info: UserInfo,
}

/// A request, made with the administrator's credentials, to delete users.
#[derive(Debug)]
pub struct DeleteUsersWithAdmin {
    pub admin_id: String,
    pub admin_password: String,
    pub users_ids: Vec<u128>,
}

/// The identifier of a user.
#[derive(Debug)]
pub struct UserId {
    pub user_id: u128,
}

/// The credentials with which a user asks for a session.
#[derive(Debug)]
pub struct User {
    pub id: u128,
    pub user_password: String,
}

} // verus!
