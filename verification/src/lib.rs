//! Verified core of a session-token authentication service.
//!
//! The library covers the token codec (HMAC-signed, time-bounded claim
//! sets), the token issuer, the refresh-rotation protocol, the
//! request-gating logic that admits or rejects a request, and the error
//! taxonomy those paths produce.  Persistence is modelled by an in-memory
//! credential store; HTTP plumbing stays outside the library.

pub mod base64url;
pub mod claims;
pub mod codec;
pub mod config;
pub mod crypto;
pub mod errors;
pub mod gate;
pub mod ident;
pub mod issuer;
pub mod jsontext;
pub mod policy;
pub mod pwhash;
pub mod refresh;
pub mod service;
pub mod store;
pub mod strconv;
