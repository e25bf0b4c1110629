//! Who a user is, and why someone is no user.

use vstd::prelude::*;

use crate::text;

verus! {

/// Why someone is refused.
#[derive(Debug, Clone, Copy, PartialEq, Eq, Structural)]
pub enum AuthErrorCode {
    /// The token is no token.
    InvalidToken,
}

/// Why someone could not log in.
#[allow(inconsistent_fields)]
#[derive(Debug, PartialEq, Eq)]
pub enum AuthError {
    /// A refusal, which the client is told.
    Business {
        /// Why.
        code: AuthErrorCode,
        /// What the client is told.
        msg: String,
    },
    /// A failure.
    Internal {
        /// What happened, for the log.
        msg: String,
    },
}

impl Clone for AuthError {
    fn clone(&self) -> (res: Self)
        ensures
            res == *self,
    {
        match self {
            AuthError::Business { code, msg } => AuthError::Business {
                code: *code,
                msg: msg.clone(),
            },
            AuthError::Internal { msg } => AuthError::Internal { msg: msg.clone() },
        }
    }
}

impl AuthError {
    /// The error in words: a refusal as it is, a failure marked as internal.
    pub fn message(&self) -> (res: String)
        ensures
            res@ == match self {
                AuthError::Business { code, msg } => msg@,
                AuthError::Internal { msg } => "internal error: "@ + msg@,
            },
    {
        match self {
            AuthError::Business { code: _, msg } => msg.clone(),
            AuthError::Internal { msg } => text::join("internal error: ", msg.as_str()),
        }
    }
}

/// Who a user is.
#[derive(Debug, PartialEq, Eq)]
pub struct UserIdentity {
    /// The id.
    pub user_id: i32,
    /// The name.
    pub name: String,
    /// The language.
    pub lang: String,
}

impl Clone for UserIdentity {
    fn clone(&self) -> (res: Self)
        ensures
            res == *self,
    {
        UserIdentity {
            user_id: self.user_id,
            name: self.name.clone(),
            lang: self.lang.clone(),
        }
    }
}

} // verus!
