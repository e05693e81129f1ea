//! Password-hashing schemes and the registry that maps scheme ids to them.
//!
//! Each scheme turns a password and a salt into a digest under a process-wide key; the
//! payload that it stores is the URL-safe base64 text of that digest. Ids are never
//! reused: `01` is kept only to validate hashes stored before `02` became current.

use crate::bytes::{append_bytes, constant_time_eq};
use crate::codec::{b64u_encode, b64u_of, is_b64u_byte};
use crate::crypto::{
    argon2id_digest, argon2id_of, hmac_sha512, hmac_sha512_of, ARGON2_MAX_LEN,
    ARGON2_MIN_SALT_LEN,
};
use vstd::prelude::*;

verus! {

/// Why a scheme could not hash or validate.
///
/// `Key`, `Salt` and `Hash` say that the digest could not be computed (a key, salt or
/// password that the algorithm refuses); `PwdValidate` says that it was computed and
/// did not match.
#[derive(Debug, Clone, PartialEq, Eq)]
pub enum Error {
    Key,
    Salt,
    Hash,
    PwdValidate,
    SchemeNotFound(String),
}

/// The registered schemes.
#[derive(Debug, Clone, Copy, PartialEq, Eq, Structural)]
pub enum Scheme {
    /// Legacy: HMAC-SHA-512 of the password bytes followed by the salt.
    Scheme01,
    /// Current: Argon2id of the password with the salt, keyed by the key.
    Scheme02,
}

/// The scheme that new hashes are made with.
pub const DEFAULT_SCHEME: Scheme = Scheme::Scheme02;

pub open spec fn current_scheme() -> Scheme {
    Scheme::Scheme02
}

/// The id of a scheme, as ASCII bytes.
pub open spec fn scheme_id(s: Scheme) -> Seq<u8> {
    match s {
        Scheme::Scheme01 => seq![0x30u8, 0x31u8],
        Scheme::Scheme02 => seq![0x30u8, 0x32u8],
    }
}

/// The scheme registered under an id.
pub open spec fn scheme_for_id(id: Seq<u8>) -> Option<Scheme> {
    if id == scheme_id(Scheme::Scheme01) {
        Some(Scheme::Scheme01)
    } else if id == scheme_id(Scheme::Scheme02) {
        Some(Scheme::Scheme02)
    } else {
        None
    }
}

/// The digest of a password with a salt under a key, or why there is none.
pub open spec fn digest_spec(s: Scheme, key: Seq<u8>, pwd: Seq<u8>, salt: Seq<u8>) -> Result<
    Seq<u8>,
    Error,
> {
    match s {
        Scheme::Scheme01 => Ok(hmac_sha512_of(key, pwd + salt)),
        Scheme::Scheme02 => {
            if salt.len() < ARGON2_MIN_SALT_LEN || salt.len() > ARGON2_MAX_LEN {
                Err(Error::Salt)
            } else if key.len() > ARGON2_MAX_LEN {
                Err(Error::Key)
            } else if pwd.len() > ARGON2_MAX_LEN {
                Err(Error::Hash)
            } else {
                Ok(argon2id_of(key, pwd, salt))
            }
        },
    }
}

/// The id's bytes are ASCII digits.
pub proof fn lemma_scheme_id_ascii(s: Scheme)
    ensures
        scheme_id(s).len() == 2,
        forall|i: int| 0 <= i < 2 ==> 0x30u8 <= #[trigger] scheme_id(s)[i] <= 0x39u8,
{
}

/// Looks a scheme up by its id.
pub fn get_scheme(id: &[u8]) -> (r: Option<Scheme>)
    ensures
        r == scheme_for_id(id@),
{
    if id.len() == 2 && id[0] == 0x30u8 && id[1] == 0x31u8 {
        assert(id@ =~= scheme_id(Scheme::Scheme01));
        Some(Scheme::Scheme01)
    } else if id.len() == 2 && id[0] == 0x30u8 && id[1] == 0x32u8 {
        assert(id@ =~= scheme_id(Scheme::Scheme02));
        Some(Scheme::Scheme02)
    } else {
        None
    }
}

impl Scheme {
    /// This scheme's id.
    pub fn id(&self) -> (r: Vec<u8>)
        ensures
            r@ == scheme_id(*self),
    {
        match self {
            Scheme::Scheme01 => vec![0x30u8, 0x31u8],
            Scheme::Scheme02 => vec![0x30u8, 0x32u8],
        }
    }

    /// The digest of `pwd` with `salt` under `key`.
    pub fn digest(&self, key: &[u8], pwd: &[u8], salt: &[u8]) -> (r: Result<Vec<u8>, Error>)
        ensures
            match digest_spec(*self, key@, pwd@, salt@) {
                Ok(d) => r matches Ok(v) && v@ == d,
                Err(e) => r == Err::<Vec<u8>, Error>(e),
            },
    {
        match self {
            Scheme::Scheme01 => {
                let mut msg: Vec<u8> = Vec::new();
                append_bytes(&mut msg, pwd);
                append_bytes(&mut msg, salt);
                Ok(hmac_sha512(key, msg.as_slice()))
            },
            Scheme::Scheme02 => {
                if salt.len() < ARGON2_MIN_SALT_LEN || salt.len() > ARGON2_MAX_LEN {
                    Err(Error::Salt)
                } else if key.len() > ARGON2_MAX_LEN {
                    Err(Error::Key)
                } else if pwd.len() > ARGON2_MAX_LEN {
                    Err(Error::Hash)
                } else {
                    match argon2id_digest(key, pwd, salt) {
                        Some(d) => Ok(d),
                        None => Err(Error::Hash),
                    }
                }
            },
        }
    }

    /// The payload to store for `pwd` with `salt`: the base64 text of its digest.
    pub fn hash(&self, key: &[u8], pwd: &[u8], salt: &[u8]) -> (r: Result<Vec<u8>, Error>)
        ensures
            match digest_spec(*self, key@, pwd@, salt@) {
                Ok(d) => r matches Ok(v) && v@ == b64u_of(d) && (forall|x: Seq<u8>|
                    #[trigger] b64u_of(x) == v@ ==> x == d) && (forall|i: int|
                    0 <= i < v@.len() ==> is_b64u_byte(#[trigger] v@[i])),
                Err(e) => r == Err::<Vec<u8>, Error>(e),
            },
    {
        let d = self.digest(key, pwd, salt)?;
        Ok(b64u_encode(d.as_slice()))
    }

    /// Checks `pwd` with `salt` against a stored payload: `Ok` when the base64 text of
    /// its digest is the payload, `PwdValidate` when it is not.
    pub fn validate(&self, key: &[u8], pwd: &[u8], salt: &[u8], payload: &[u8]) -> (r: Result<
        (),
        Error,
    >)
        ensures
            match digest_spec(*self, key@, pwd@, salt@) {
                Ok(d) => r == if b64u_of(d) == payload@ {
                    Ok::<(), Error>(())
                } else {
                    Err(Error::PwdValidate)
                },
                Err(e) => r == Err::<(), Error>(e),
            },
    {
        let fresh = self.hash(key, pwd, salt)?;
        if constant_time_eq(fresh.as_slice(), payload) {
            Ok(())
        } else {
            Err(Error::PwdValidate)
        }
    }
}

} // verus!
