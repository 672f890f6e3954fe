//! Account linkage values.
//!
//! Creating a user together with a connected provider account is the OAuth
//! subsystem's side of the house; only the shape of the request belongs to
//! the library, so that callers and the storage driver agree on it.

use vstd::prelude::*;

verus! {

/// Options when creating a user with an account connected: the user's
/// profile, the provider's credentials, and the provider identity.
pub struct CreateUserOptions {
    pub email: String,
    pub name: String,
    pub access_token: String,
    pub refresh_token: String,
    pub provider: String,
    pub provider_id: String,
}

} // verus!
