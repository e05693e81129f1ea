//! Keyed digests computed by outside code: HMAC-SHA-512 and Argon2id.

use argon2::{Algorithm, Argon2, Params, Version};
use hmac::{Hmac, Mac};
use sha2::Sha512;
use vstd::prelude::*;

verus! {

/// The HMAC-SHA-512 tag of a message under a key.
pub uninterp spec fn hmac_sha512_of(key: Seq<u8>, msg: Seq<u8>) -> Seq<u8>;

/// The Argon2id (version 0x13, default cost parameters, 32-byte output) digest of a
/// password with a salt, keyed by a secret.
pub uninterp spec fn argon2id_of(secret: Seq<u8>, pwd: Seq<u8>, salt: Seq<u8>) -> Seq<u8>;

/// The largest length that Argon2 accepts for a password, a salt or a secret.
pub const ARGON2_MAX_LEN: usize = 0xFFFF_FFFF;

/// The smallest salt length that Argon2 accepts.
pub const ARGON2_MIN_SALT_LEN: usize = 8;

/// Relies on hmac's `Hmac::<Sha512>::new_from_slice` (which takes a key of any length),
/// `update` and `finalize`: the 64-byte tag of the message under the key.
#[verifier::external_body]
pub(crate) fn hmac_sha512(key: &[u8], msg: &[u8]) -> (r: Vec<u8>)
    ensures
        r@ == hmac_sha512_of(key@, msg@),
        r@.len() == 64,
{
    match Hmac::<Sha512>::new_from_slice(key) {
        Ok(mut mac) => {
            mac.update(msg);
            mac.finalize().into_bytes().to_vec()
        },
        Err(_) => Vec::new(),
    }
}

/// Relies on argon2's `Argon2::new_with_secret` and `hash_password_into` with
/// `Params::default()`: they fail only on a secret or password longer than
/// `ARGON2_MAX_LEN`, or a salt shorter than `ARGON2_MIN_SALT_LEN` or longer than
/// `ARGON2_MAX_LEN`.
#[verifier::external_body]
pub(crate) fn argon2id_digest(secret: &[u8], pwd: &[u8], salt: &[u8]) -> (r: Option<Vec<u8>>)
    ensures
        r is Some <==> (secret@.len() <= ARGON2_MAX_LEN && pwd@.len() <= ARGON2_MAX_LEN
            && ARGON2_MIN_SALT_LEN <= salt@.len() <= ARGON2_MAX_LEN),
        r matches Some(v) ==> v@ == argon2id_of(secret@, pwd@, salt@),
{
    let a = Argon2::new_with_secret(secret, Algorithm::Argon2id, Version::V0x13, Params::default()).ok()?;
    let mut out = vec![0u8; Params::DEFAULT_OUTPUT_LEN];
    a.hash_password_into(pwd, salt, &mut out).ok()?;
    Some(out)
}

} // verus!
