//! Credential payload held in the OS keychain.  The keychain itself is an
//! OS facility operated by the caller; this is the record it stores.

use vstd::prelude::*;

verus! {

/// Auth tokens stored for the staff session.
#[derive(Debug, Clone)]
pub struct SecureCredentials {
    pub access_token: String,
    pub refresh_token: String,
    pub expires_at: i64,
}

} // verus!
