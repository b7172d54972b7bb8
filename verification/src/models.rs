//! Stored records and API payloads.
use vstd::prelude::*;

verus! {

/// A user row.
#[derive(Debug)]
pub struct User {
    pub id: String,
    pub username: String,
    pub api_key_hash: String,
    pub is_sudoer: bool,
    pub created_at: String,
    pub updated_at: String,
    /// `%Y-%m-%d %H:%M:%S` (UTC); `None` never expires.
    pub api_key_expires_at: Option<String>,
}

/// An IP whitelist row.
#[derive(Debug)]
pub struct IpWhitelistEntry {
    pub id: String,
    pub user_id: String,
    pub ip: String,
    pub updated_at: String,
}

/// A user as the API shows it (without the credential hash).
#[derive(Debug)]
pub struct UserResponse {
    pub id: String,
    pub username: String,
    pub is_sudoer: bool,
    pub created_at: String,
}

impl From<User> for UserResponse {
    fn from(u: User) -> (r: Self) {
        UserResponse { id: u.id, username: u.username, is_sudoer: u.is_sudoer, created_at: u.created_at }
    }
}

impl vstd::std_specs::convert::FromSpecImpl<User> for UserResponse {
    open spec fn obeys_from_spec() -> bool {
        true
    }

    open spec fn from_spec(u: User) -> Self {
        UserResponse { id: u.id, username: u.username, is_sudoer: u.is_sudoer, created_at: u.created_at }
    }
}

#[derive(Debug)]
pub struct MeResponse {
    pub user: UserResponse,
}

#[derive(Debug)]
pub struct CreatedUserResponse {
    pub user: UserResponse,
    pub api_key: String,
    pub api_key_expires_at: Option<String>,
}

#[derive(Debug)]
pub struct RegisterRequest {
    pub username: String,
}

#[derive(Debug)]
pub struct UpdateUserReq {
    pub username: Option<String>,
}

} // verus!
