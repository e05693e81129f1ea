//! Hashing and validating passwords through the scheme registry.
//!
//! A stored hash reads `{scheme id}_{payload}`: the id says which scheme made it, so
//! hashes made by a scheme that is no longer current still validate, with a hint that
//! they should be made again.

use crate::bytes::{all_ascii, append_bytes, ascii_text, copy_range, lemma_ascii_utf8};
use crate::codec::{b64u_of, is_b64u_byte, utf8_string};
use crate::scheme::{
    self, current_scheme, digest_spec, get_scheme, lemma_scheme_id_ascii, scheme_for_id,
    scheme_id, Scheme, DEFAULT_SCHEME,
};
use vstd::prelude::*;
use vstd::string::StringSliceAdditionalSpecFns;
use vstd::utf8::*;

verus! {

/// Why a password could not be hashed or validated.
///
/// The two dispatch variants are for callers that run the work on a pool of workers
/// and could not hand it over.
#[derive(Debug, Clone, PartialEq, Eq)]
pub enum Error {
    PwdWithSchemeFailedParse,
    FailSpawnBlockForValidate,
    FailSpawnBlockForHash,
    Scheme(scheme::Error),
}

/// A password with the salt of the credential that it belongs to.
pub struct ContentToHash {
    pub content: String,
    pub salt: Vec<u8>,
}

/// The outcome of a successful validation.
#[derive(Debug, Clone, PartialEq, Eq)]
pub enum SchemeStatus {
    /// The stored hash was made by the current scheme.
    Current,
    /// The stored hash was made by an older scheme: hash the password again with the
    /// current one, whose id this holds.
    Outdated(String),
}

/// The separator between a stored hash's scheme id and its payload: `_`.
pub const ID_SEP: u8 = 0x5f;

/// The first position of `c` in `b`.
pub open spec fn index_of(b: Seq<u8>, c: u8) -> Option<int>
    decreases b.len(),
{
    if b.len() == 0 {
        None
    } else if b[0] == c {
        Some(0)
    } else {
        match index_of(b.drop_first(), c) {
            Some(i) => Some(i + 1),
            None => None,
        }
    }
}

/// The bytes of a stored hash made by scheme `s` with digest `d`.
pub open spec fn stored_of(s: Scheme, d: Seq<u8>) -> Seq<u8> {
    scheme_id(s) + seq![ID_SEP] + b64u_of(d)
}

/// The stored hash that scheme `s` makes of a password with a salt, or why it cannot.
pub open spec fn hashed(s: Scheme, key: Seq<u8>, pwd: Seq<u8>, salt: Seq<u8>) -> Result<
    Seq<u8>,
    scheme::Error,
> {
    match digest_spec(s, key, pwd, salt) {
        Ok(d) => Ok(stored_of(s, d)),
        Err(e) => Err(e),
    }
}

/// The scheme under which a password with a salt matches a stored hash, if any.
pub open spec fn matched_scheme(key: Seq<u8>, pwd: Seq<u8>, salt: Seq<u8>, stored: Seq<u8>) -> Option<
    Scheme,
> {
    match index_of(stored, ID_SEP) {
        None => None,
        Some(i) => match scheme_for_id(stored.subrange(0, i)) {
            None => None,
            Some(s) => match digest_spec(s, key, pwd, salt) {
                Ok(d) => if b64u_of(d) == stored.subrange(i + 1, stored.len() as int) {
                    Some(s)
                } else {
                    None
                },
                Err(_) => None,
            },
        },
    }
}

/// `index_of` finds the first occurrence.
pub proof fn lemma_index_of(b: Seq<u8>, c: u8, i: int)
    requires
        0 <= i <= b.len(),
        forall|j: int| 0 <= j < i ==> b[j] != c,
    ensures
        i < b.len() && b[i] == c ==> index_of(b, c) == Some(i),
        i == b.len() ==> index_of(b, c) is None,
    decreases i,
{
    if i > 0 {
        lemma_index_of(b.drop_first(), c, i - 1);
    } else if b.len() > 0 {
    }
}

/// Where the first `c` stands in `b`.
fn find_byte(b: &[u8], c: u8) -> (r: Option<usize>)
    ensures
        r is None <==> index_of(b@, c) is None,
        r matches Some(i) ==> index_of(b@, c) == Some(i as int) && i < b@.len() && b@[i as int] == c,
{
    let mut i: usize = 0;
    while i < b.len()
        invariant
            i <= b@.len(),
            forall|j: int| 0 <= j < i ==> b@[j] != c,
        decreases b@.len() - i,
    {
        if b[i] == c {
            proof {
                lemma_index_of(b@, c, i as int);
            }
            return Some(i);
        }
        i = i + 1;
    }
    proof {
        lemma_index_of(b@, c, i as int);
    }
    None
}

/// A stored hash of scheme `s` splits back into that scheme's id and the payload.
pub proof fn lemma_stored_split(s: Scheme, d: Seq<u8>)
    ensures
        index_of(stored_of(s, d), ID_SEP) == Some(2int),
        stored_of(s, d).subrange(0, 2) == scheme_id(s),
        stored_of(s, d).subrange(3, stored_of(s, d).len() as int) == b64u_of(d),
{
    let b = stored_of(s, d);
    lemma_scheme_id_ascii(s);
    assert(b[0] != ID_SEP && b[1] != ID_SEP && b[2] == ID_SEP);
    lemma_index_of(b, ID_SEP, 2);
    assert(b.subrange(0, 2) =~= scheme_id(s));
    assert(b.subrange(3, b.len() as int) =~= b64u_of(d));
}

/// A stored hash whose payload is base64 text is ASCII.
pub proof fn lemma_stored_ascii(s: Scheme, d: Seq<u8>)
    requires
        forall|i: int| 0 <= i < b64u_of(d).len() ==> is_b64u_byte(#[trigger] b64u_of(d)[i]),
    ensures
        all_ascii(stored_of(s, d)),
{
    let b = stored_of(s, d);
    lemma_scheme_id_ascii(s);
    assert forall|i: int| 0 <= i < b.len() implies #[trigger] b[i] < 0x80u8 by {
        if i >= 3 {
            assert(b[i] == b64u_of(d)[i - 3]);
            assert(is_b64u_byte(b64u_of(d)[i - 3]));
        }
    }
}

/// A password validates against the stored hash that hashing it produced, under every
/// registered scheme.
pub proof fn lemma_hash_then_validate(s: Scheme, key: Seq<u8>, pwd: Seq<u8>, salt: Seq<u8>)
    requires
        hashed(s, key, pwd, salt) is Ok,
    ensures
        hashed(s, key, pwd, salt) matches Ok(h) && matched_scheme(key, pwd, salt, h) == Some(s),
{
    let d = digest_spec(s, key, pwd, salt)->Ok_0;
    lemma_stored_split(s, d);
}

/// The bytes of a password.
pub open spec fn pwd_bytes(c: &ContentToHash) -> Seq<u8> {
    encode_utf8(c.content@)
}

/// Hashes a password with the current scheme, into the text to store.
///
/// Two passwords, or two salts, give the same stored hash only where the scheme's
/// digests of them agree; so a password other than this one validates against it only
/// then.
pub fn hash_pwd(key: &[u8], to_hash: &ContentToHash) -> (r: Result<String, Error>)
    ensures
        match hashed(current_scheme(), key@, pwd_bytes(to_hash), to_hash.salt@) {
            Ok(h) => r matches Ok(s) && s@ == ascii_text(h) && encode_utf8(s@) == h,
            Err(e) => r == Err::<String, Error>(Error::Scheme(e)),
        },
        r matches Ok(s) ==> forall|other_pwd: Seq<u8>, other_salt: Seq<u8>|
            #[trigger] hashed(current_scheme(), key@, other_pwd, other_salt) == Ok::<Seq<u8>, scheme::Error>(
                encode_utf8(s@),
            ) ==> digest_spec(current_scheme(), key@, other_pwd, other_salt) == digest_spec(
                current_scheme(),
                key@,
                pwd_bytes(to_hash),
                to_hash.salt@,
            ),
        r matches Ok(s) ==> forall|other_pwd: Seq<u8>|
            #[trigger] matched_scheme(key@, other_pwd, to_hash.salt@, encode_utf8(s@)) is Some
                ==> digest_spec(current_scheme(), key@, other_pwd, to_hash.salt@) == digest_spec(
                current_scheme(),
                key@,
                pwd_bytes(to_hash),
                to_hash.salt@,
            ),
{
    let pwd = to_hash.content.as_str().as_bytes();
    let payload = match DEFAULT_SCHEME.hash(key, pwd, to_hash.salt.as_slice()) {
        Ok(p) => p,
        Err(e) => {
            return Err(Error::Scheme(e));
        },
    };
    let ghost cur = current_scheme();
    let ghost d = digest_spec(cur, key@, pwd@, to_hash.salt@)->Ok_0;
    let mut b = DEFAULT_SCHEME.id();
    b.push(ID_SEP);
    append_bytes(&mut b, payload.as_slice());
    assert(b@ =~= stored_of(cur, d));
    proof {
        lemma_stored_ascii(cur, d);
        lemma_ascii_utf8(b@);
        lemma_stored_split(cur, d);
    }
    let ghost h = b@;
    match utf8_string(b) {
        Some(s) => {
            proof {
                assert forall|other_pwd: Seq<u8>, other_salt: Seq<u8>|
                    #[trigger] hashed(cur, key@, other_pwd, other_salt) == Ok::<Seq<u8>, scheme::Error>(
                        encode_utf8(s@),
                    ) implies digest_spec(cur, key@, other_pwd, other_salt) == digest_spec(
                    cur,
                    key@,
                    pwd@,
                    to_hash.salt@,
                ) by {
                    let d2 = digest_spec(cur, key@, other_pwd, other_salt)->Ok_0;
                    lemma_stored_split(cur, d2);
                }
                assert forall|other_pwd: Seq<u8>|
                    #[trigger] matched_scheme(key@, other_pwd, to_hash.salt@, encode_utf8(s@))
                        is Some implies digest_spec(cur, key@, other_pwd, to_hash.salt@) == digest_spec(
                    cur,
                    key@,
                    pwd@,
                    to_hash.salt@,
                ) by {}
            }
            Ok(s)
        },
        None => Err(Error::Scheme(scheme::Error::Hash)),
    }
}

/// Validates a password against a stored hash, with the scheme that the hash names.
///
/// On a match, says whether the hash was made by the current scheme or should be made
/// again with it.
pub fn validate_pwd(key: &[u8], to_hash: &ContentToHash, pwd_ref: &str) -> (r: Result<
    SchemeStatus,
    Error,
>)
    ensures
        ({
            let b = pwd_ref.spec_bytes();
            let m = matched_scheme(key@, pwd_bytes(to_hash), to_hash.salt@, b);
            &&& r is Ok <==> m is Some
            &&& m == Some(current_scheme()) ==> r == Ok::<SchemeStatus, Error>(
                SchemeStatus::Current,
            )
            &&& (m is Some && m->Some_0 != current_scheme()) ==> (r matches Ok(
                SchemeStatus::Outdated(id),
            ) && id@ == ascii_text(scheme_id(current_scheme())))
            &&& index_of(b, ID_SEP) is None ==> r == Err::<SchemeStatus, Error>(
                Error::PwdWithSchemeFailedParse,
            )
            &&& index_of(b, ID_SEP) is Some ==> {
                let i = index_of(b, ID_SEP)->Some_0;
                match scheme_for_id(b.subrange(0, i)) {
                None => (r matches Err(Error::Scheme(scheme::Error::SchemeNotFound(id))) && id@
                    == decode_utf8(b.subrange(0, i))),
                Some(s) => match digest_spec(s, key@, pwd_bytes(to_hash), to_hash.salt@) {
                    Err(e) => r == Err::<SchemeStatus, Error>(Error::Scheme(e)),
                    Ok(d) => b64u_of(d) != b.subrange(i + 1, b.len() as int) ==> r == Err::<
                        SchemeStatus,
                        Error,
                    >(Error::Scheme(scheme::Error::PwdValidate)),
                },
            }
            }
        }),
{
    let b = pwd_ref.as_bytes();
    let i = match find_byte(b, ID_SEP) {
        Some(i) => i,
        None => {
            return Err(Error::PwdWithSchemeFailedParse);
        },
    };
    let len = b.len();
    assert(i < len);
    let id = copy_range(b, 0, i);
    let payload = copy_range(b, i + 1, len);
    let scheme = match get_scheme(id.as_slice()) {
        Some(s) => s,
        None => {
            proof {
                encode_utf8_valid_utf8(pwd_ref@);
                assert(b@[i as int] == ID_SEP);
                assert(is_leading_byte_width_1(ID_SEP)) by (bit_vector);
                is_char_boundary_iff_is_leading_byte(b@, i as int);
                valid_utf8_split(b@, i as int);
            }
            return match utf8_string(id) {
                Some(name) => Err(Error::Scheme(scheme::Error::SchemeNotFound(name))),
                None => Err(Error::PwdWithSchemeFailedParse),
            };
        },
    };
    let pwd = to_hash.content.as_str().as_bytes();
    match scheme.validate(key, pwd, to_hash.salt.as_slice(), payload.as_slice()) {
        Ok(()) => {
            if scheme == DEFAULT_SCHEME {
                Ok(SchemeStatus::Current)
            } else {
                let cur = DEFAULT_SCHEME.id();
                proof {
                    lemma_scheme_id_ascii(current_scheme());
                    lemma_ascii_utf8(cur@);
                }
                match utf8_string(cur) {
                    Some(name) => Ok(SchemeStatus::Outdated(name)),
                    None => Err(Error::Scheme(scheme::Error::Hash)),
                }
            }
        },
        Err(e) => Err(Error::Scheme(e)),
    }
}

} // verus!
