//! The token policy: the read-only configuration the codec, issuer,
//! refresh protocol and gate share.  Loaded once at startup and never
//! mutated; every component borrows it.

use vstd::prelude::*;

verus! {

/// Default access-token lifetime: one hour, in seconds.
pub const DEFAULT_ACCESS_LIFETIME_SECS: i64 = 3600;

/// Default refresh-token lifetime: twelve hours, in seconds.
pub const DEFAULT_REFRESH_LIFETIME_SECS: i64 = 43200;

/// Default clock-skew leeway for expiry checks, in seconds.
pub const DEFAULT_LEEWAY_SECS: i64 = 60;

/// Issuer and audience strings, the signing secret, the two token
/// lifetimes and the verification leeway.
pub struct TokenPolicy {
    pub issuer: String,
    pub audience: String,
    pub secret: Vec<u8>,
    pub access_lifetime: i64,
    pub refresh_lifetime: i64,
    pub leeway: i64,
}

impl TokenPolicy {
    /// A policy is well formed when its durations are not negative.
    pub open spec fn wf(&self) -> bool {
        &&& 0 <= self.access_lifetime
        &&& 0 <= self.refresh_lifetime
        &&& 0 <= self.leeway
    }
}

} // verus!
