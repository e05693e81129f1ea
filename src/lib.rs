//! Credential hashing with pluggable schemes, and compact signed expiring tokens.

pub mod bytes;
pub mod codec;
pub mod clock;
pub mod crypto;
pub mod scheme;
pub mod pwd;
pub mod token;
pub mod model;
