//! Users, and the shapes of login and of user management.

use vstd::prelude::*;

verus! {

/// A user row. Both `id` and `username` are unique in the store; `status`
/// is 1 for an active user.
#[derive(Debug, PartialEq, Eq)]
pub struct User {
    pub id: i64,
    pub username: String,
    pub password_hash: String,
    pub name: String,
    pub email: String,
    pub is_admin: bool,
    pub status: i32,
    pub created_at: String,
    pub updated_at: String,
}

/// What a user row holds.
pub struct UserView {
    pub id: i64,
    pub username: Seq<char>,
    pub password_hash: Seq<char>,
    pub name: Seq<char>,
    pub email: Seq<char>,
    pub is_admin: bool,
    pub status: i32,
    pub created_at: Seq<char>,
    pub updated_at: Seq<char>,
}

impl View for User {
    type V = UserView;

    open spec fn view(&self) -> UserView {
        UserView {
            id: self.id,
            username: self.username@,
            password_hash: self.password_hash@,
            name: self.name@,
            email: self.email@,
            is_admin: self.is_admin,
            status: self.status,
            created_at: self.created_at@,
            updated_at: self.updated_at@,
        }
    }
}

impl Clone for User {
    fn clone(&self) -> (r: Self)
        ensures
            r@ == self@,
    {
        User {
            id: self.id,
            username: self.username.clone(),
            password_hash: self.password_hash.clone(),
            name: self.name.clone(),
            email: self.email.clone(),
            is_admin: self.is_admin,
            status: self.status,
            created_at: self.created_at.clone(),
            updated_at: self.updated_at.clone(),
        }
    }
}

/// What a client sends to log in; `id` and `uuid` name the client itself.
#[derive(Debug, PartialEq, Eq)]
pub struct LoginRequest {
    pub username: String,
    pub password: String,
    pub id: String,
    pub uuid: String,
}

/// The answer to a login.
#[derive(Debug, PartialEq, Eq)]
pub struct LoginResponse {
    pub access_token: String,
    pub token_type: String,
    pub user: UserPayload,
}

/// A user as a client sees it.
#[derive(Debug, PartialEq, Eq)]
pub struct UserPayload {
    pub name: String,
    pub email: String,
    pub is_admin: bool,
    pub note: String,
}

/// A request to create a user.
#[derive(Debug, PartialEq, Eq)]
pub struct CreateUserRequest {
    pub username: String,
    pub password: String,
    pub name: String,
    pub email: String,
    pub is_admin: bool,
}

/// A user as the list of users shows it.
#[derive(Debug, PartialEq, Eq)]
pub struct UserListItem {
    pub id: i64,
    pub username: String,
    pub name: String,
    pub email: String,
    pub is_admin: bool,
    pub status: i32,
    pub created_at: String,
}

/// What an entry of the list of users holds.
pub struct UserListItemView {
    pub id: i64,
    pub username: Seq<char>,
    pub name: Seq<char>,
    pub email: Seq<char>,
    pub is_admin: bool,
    pub status: i32,
    pub created_at: Seq<char>,
}

impl View for UserListItem {
    type V = UserListItemView;

    open spec fn view(&self) -> UserListItemView {
        UserListItemView {
            id: self.id,
            username: self.username@,
            name: self.name@,
            email: self.email@,
            is_admin: self.is_admin,
            status: self.status,
            created_at: self.created_at@,
        }
    }
}

/// The fields of a user to change; an absent one is left as it is.
/// `password_hash` is the hash of a new password.
#[derive(Debug, PartialEq, Eq)]
pub struct UserPatch {
    pub name: Option<String>,
    pub email: Option<String>,
    pub is_admin: Option<bool>,
    pub status: Option<i32>,
    pub password_hash: Option<String>,
}

} // verus!
