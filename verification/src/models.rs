//! Records the application keeps.

use vstd::prelude::*;

verus! {

/// A registered user as stored: the password only as its hash.
pub struct UserRecord {
    pub id: i64,
    pub username: String,
    pub password_hash: String,
}

} // verus!
