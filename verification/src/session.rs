//! Sessions of users.

use vstd::prelude::*;

verus! {

/// A session of a user who has logged in.
#[derive(Debug)]
pub struct SessionHandle {
    /// The user.
    pub user_id: i32,
}

impl SessionHandle {
    /// A session of a user who has logged in.
    pub fn new(user_id: i32) -> (res: Self)
        ensures
            res.user_id == user_id,
    {
        SessionHandle { user_id }
    }
}

/// What became of a connection.
#[allow(inconsistent_fields)]
#[derive(Debug, Clone, Copy, PartialEq, Eq, Structural)]
pub enum LifecycleFact {
    /// A user has logged in.
    Connected {
        /// The user.
        user_id: i32,
        /// The epoch of the session.
        epoch: u64,
    },
    /// The connection was lost.
    Disconnected {
        /// The user.
        user_id: i32,
        /// The epoch of the session.
        epoch: u64,
    },
    /// A user has logged in again.
    Reconnected {
        /// The user.
        user_id: i32,
        /// The epoch of the session.
        epoch: u64,
    },
}

} // verus!
