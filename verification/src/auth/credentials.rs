//! App-password credentials: an identifier, a password and the service
//! they are for.
use vstd::prelude::*;
use crate::text::owned;

verus! {

/// The service used when none is given.
pub open spec fn default_service_url() -> Seq<char> {
    "https://bsky.social"@
}

/// The service used when none is given.
pub fn default_service() -> (s: String)
    ensures
        s@ == default_service_url(),
{
    owned("https://bsky.social")
}

/// Login credentials for an app password.
#[derive(Debug, Clone)]
pub struct Credentials {
    pub identifier: String,
    pub password: String,
    pub service: String,
}

impl Credentials {
    /// Credentials for the default service.
    pub fn new(identifier: &str, password: &str) -> (c: Self)
        ensures
            c.identifier@ == identifier@,
            c.password@ == password@,
            c.service@ == default_service_url(),
    {
        Credentials { identifier: owned(identifier), password: owned(password), service: default_service() }
    }

    /// Credentials for the given service.
    pub fn with_service(identifier: &str, password: &str, service: &str) -> (c: Self)
        ensures
            c.identifier@ == identifier@,
            c.password@ == password@,
            c.service@ == service@,
    {
        Credentials { identifier: owned(identifier), password: owned(password), service: owned(service) }
    }
}

} // verus!
