//! The record kept by the users collaborator, and its error body.
use vstd::prelude::*;
use vstd::string::StringExecFns;

verus! {

/// A user record; `id` is absent until the store assigns one.
pub struct User {
    pub id: Option<i32>,
    pub username: String,
    pub password: String,
}

/// An error body: a status code and a message.
pub struct RestError {
    pub code: i32,
    pub message: String,
}

impl RestError {
    /// The error for a failed user creation: a conflict when the username is
    /// taken, a server error otherwise.
    pub fn for_create_failure(username_taken: bool) -> (r: RestError)
        ensures
            username_taken ==> r.code == 409 && r.message@ == "Username already exists"@,
            !username_taken ==> r.code == 500 && r.message@ == "Internal server error"@,
    {
        if username_taken {
            RestError { code: 409, message: String::from_str("Username already exists") }
        } else {
            RestError { code: 500, message: String::from_str("Internal server error") }
        }
    }
}

} // verus!
