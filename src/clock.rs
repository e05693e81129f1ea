//! UTC timestamps as whole seconds since the Unix epoch, their RFC 3339 text, and the
//! current time, through the `time` crate.

use time::format_description::well_known::Rfc3339;
use time::OffsetDateTime;
use vstd::prelude::*;

verus! {

/// The earliest timestamp with an RFC 3339 text: 0000-01-01T00:00:00Z.
pub const MIN_TIMESTAMP: i64 = -62167219200;

/// The latest timestamp with an RFC 3339 text: 9999-12-31T23:59:59Z.
pub const MAX_TIMESTAMP: i64 = 253402300799;

/// The RFC 3339 text of a UTC timestamp.
pub uninterp spec fn rfc3339_of(secs: int) -> Seq<char>;

/// The timestamp that an RFC 3339 text denotes, if it is one.
pub uninterp spec fn rfc3339_parsed(s: Seq<char>) -> Option<i64>;

/// Relies on time's `OffsetDateTime::from_unix_timestamp` and its `Rfc3339` format,
/// which succeed for years 0 to 9999 at offset zero, and whose text `Rfc3339` parses
/// back to the same instant.
#[verifier::external_body]
pub(crate) fn rfc3339_format(secs: i64) -> (r: String)
    requires
        MIN_TIMESTAMP <= secs <= MAX_TIMESTAMP,
    ensures
        r@ == rfc3339_of(secs as int),
        r@.len() > 0,
        rfc3339_parsed(r@) == Some(secs),
{
    match OffsetDateTime::from_unix_timestamp(secs) {
        Ok(t) => t.format(&Rfc3339).unwrap_or_default(),
        Err(_) => String::new(),
    }
}

/// Relies on time's `OffsetDateTime::parse` with `Rfc3339`, and `unix_timestamp`.
#[verifier::external_body]
pub(crate) fn rfc3339_parse(s: &str) -> (r: Option<i64>)
    ensures
        r == rfc3339_parsed(s@),
{
    OffsetDateTime::parse(s, &Rfc3339).ok().map(|t| t.unix_timestamp())
}

/// Relies on time's `OffsetDateTime::now_utc` and `unix_timestamp`: the clock's reading,
/// of which nothing is promised.
#[verifier::external_body]
pub(crate) fn now_utc_secs() -> (r: i64) {
    OffsetDateTime::now_utc().unix_timestamp()
}

} // verus!
