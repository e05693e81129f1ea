//! Compact signed expiring tokens.
//!
//! A token's text is three segments joined by `.`: the URL-safe base64 text of the
//! identifier, that of the expiration's RFC 3339 text, and that of the signature, an
//! HMAC-SHA-512 tag over `segment1 . segment2 . pepper` under the signing key.

use crate::bytes::{append_bytes, ascii_text, constant_time_eq, copy_range, lemma_ascii_utf8};
use crate::clock::{
    now_utc_secs, rfc3339_format, rfc3339_of, rfc3339_parse, rfc3339_parsed, MAX_TIMESTAMP,
    MIN_TIMESTAMP,
};
use crate::codec::{b64u_decode, b64u_decoded, b64u_encode, b64u_of, is_b64u_byte, utf8_string};
use crate::crypto::{hmac_sha512, hmac_sha512_of};
use vstd::prelude::*;
use vstd::string::StringSliceAdditionalSpecFns;
use vstd::utf8::*;

verus! {

/// Why a token could not be made or was refused.
#[derive(Debug, Clone, Copy, PartialEq, Eq, Structural)]
pub enum Error {
    /// The signing key could not be used.
    HmacFailNewFromSlice,
    /// The text is not three non-empty segments.
    InvalidFormat,
    /// The first segment is not base64 of UTF-8 text.
    CannotDecodeIdent,
    /// The second segment is not base64 of UTF-8 text.
    CannotDecodeExp,
    /// The signature is not the one that the key gives.
    SignatureNotMatching,
    /// The expiration is not an RFC 3339 timestamp.
    ExpNotIso,
    /// The expiration has passed.
    Expired,
    /// The expiration asked for has no RFC 3339 text (before year 0 or after year 9999).
    ExpOutOfRange,
}

/// A parsed token.
pub struct Token {
    /// The subject that the token speaks for.
    pub ident: String,
    /// The expiration, in seconds since the Unix epoch.
    pub exp: i64,
    /// The signature segment, as it stands in the text.
    pub sign_b64u: Vec<u8>,
}

/// The separator between segments: `.`.
pub const SEP: u8 = 0x2e;

/// The pieces of `b` between separators, as `split` cuts them.
pub open spec fn segments(b: Seq<u8>) -> Seq<Seq<u8>>
    decreases b.len(),
{
    if b.len() == 0 {
        seq![Seq::empty()]
    } else {
        let rest = segments(b.drop_last());
        if b.last() == SEP {
            rest.push(Seq::empty())
        } else {
            rest.update(rest.len() - 1, rest.last().push(b.last()))
        }
    }
}

/// Three segments, none empty.
pub open spec fn well_formed(segs: Seq<Seq<u8>>) -> bool {
    segs.len() == 3 && segs[0].len() > 0 && segs[1].len() > 0 && segs[2].len() > 0
}

/// What parsing reads from a token's bytes: the identifier's bytes and the expiration.
pub open spec fn parse_spec(b: Seq<u8>) -> Result<(Seq<u8>, i64), Error> {
    let segs = segments(b);
    if !well_formed(segs) {
        Err(Error::InvalidFormat)
    } else {
        match b64u_decoded(segs[0]) {
            None => Err(Error::CannotDecodeIdent),
            Some(ib) => if !valid_utf8(ib) {
                Err(Error::CannotDecodeIdent)
            } else {
                match b64u_decoded(segs[1]) {
                    None => Err(Error::CannotDecodeExp),
                    Some(eb) => if !valid_utf8(eb) {
                        Err(Error::CannotDecodeExp)
                    } else {
                        match rfc3339_parsed(decode_utf8(eb)) {
                            None => Err(Error::ExpNotIso),
                            Some(t) => Ok((ib, t)),
                        }
                    },
                }
            },
        }
    }
}

/// The bytes that a signature covers.
pub open spec fn sign_msg(s1: Seq<u8>, s2: Seq<u8>, pepper: Seq<u8>) -> Seq<u8> {
    s1 + seq![SEP] + s2 + seq![SEP] + pepper
}

/// The signature segment for the first two segments.
pub open spec fn signature_of(s1: Seq<u8>, s2: Seq<u8>, key: Seq<u8>, pepper: Seq<u8>) -> Seq<u8> {
    b64u_of(hmac_sha512_of(key, sign_msg(s1, s2, pepper)))
}

/// The verdict on a token's bytes at time `now`: the first failure in the order
/// format, identifier, expiration text, signature, expiry.
pub open spec fn token_check(b: Seq<u8>, key: Seq<u8>, pepper: Seq<u8>, now: int) -> Result<(), Error> {
    match parse_spec(b) {
        Err(e) => Err(e),
        Ok((_, exp)) => {
            let segs = segments(b);
            if signature_of(segs[0], segs[1], key, pepper) != segs[2] {
                Err(Error::SignatureNotMatching)
            } else if now > exp {
                Err(Error::Expired)
            } else {
                Ok(())
            }
        },
    }
}

/// The bytes of the token made for an identifier, expiring at `exp`.
pub open spec fn token_bytes(ident: Seq<u8>, exp: int, key: Seq<u8>, pepper: Seq<u8>) -> Seq<u8> {
    let s1 = b64u_of(ident);
    let s2 = b64u_of(encode_utf8(rfc3339_of(exp)));
    s1 + seq![SEP] + s2 + seq![SEP] + signature_of(s1, s2, key, pepper)
}

/// No byte of `s` is the separator.
pub open spec fn plain(s: Seq<u8>) -> bool {
    forall|i: int| 0 <= i < s.len() ==> #[trigger] s[i] != SEP
}

pub proof fn lemma_segments_nonempty(b: Seq<u8>)
    ensures
        segments(b).len() >= 1,
    decreases b.len(),
{
    if b.len() > 0 {
        lemma_segments_nonempty(b.drop_last());
    }
}

/// Bytes without a separator extend the last segment.
pub proof fn lemma_segments_plain(a: Seq<u8>, s: Seq<u8>)
    requires
        plain(s),
    ensures
        segments(a + s) == segments(a).update(
            segments(a).len() - 1,
            segments(a).last() + s,
        ),
    decreases s.len(),
{
    lemma_segments_nonempty(a);
    if s.len() == 0 {
        assert(a + s =~= a);
        assert(segments(a).last() + s =~= segments(a).last());
        assert(segments(a).update(segments(a).len() - 1, segments(a).last()) =~= segments(a));
    } else {
        let s0 = s.drop_last();
        lemma_segments_plain(a, s0);
        assert((a + s).drop_last() =~= a + s0);
        assert((a + s).last() == s.last());
        assert((segments(a).last() + s0).push(s.last()) =~= segments(a).last() + s);
        lemma_segments_nonempty(a + s0);
        assert(s[s.len() - 1] != SEP);
        let rest = segments(a + s0);
        assert(rest.len() == segments(a).len());
        assert(rest.last() == segments(a).last() + s0);
        assert(segments(a + s) == rest.update(rest.len() - 1, rest.last().push(s.last())));
        assert(segments(a + s) =~= segments(a).update(
            segments(a).len() - 1,
            segments(a).last() + s,
        ));
    }
}

/// A separator starts a new, empty segment.
pub proof fn lemma_segments_sep(a: Seq<u8>)
    ensures
        segments(a.push(SEP)) == segments(a).push(Seq::<u8>::empty()),
{
    assert(a.push(SEP).drop_last() =~= a);
}

/// Three separator-free pieces joined by separators split back into those pieces.
pub proof fn lemma_segments_three(s1: Seq<u8>, s2: Seq<u8>, s3: Seq<u8>)
    requires
        plain(s1),
        plain(s2),
        plain(s3),
    ensures
        segments(s1 + seq![SEP] + s2 + seq![SEP] + s3) == seq![s1, s2, s3],
{
    let e = Seq::<u8>::empty();
    lemma_segments_plain(e, s1);
    assert(e + s1 =~= s1);
    assert(segments(s1) =~= seq![s1]);
    lemma_segments_sep(s1);
    assert(s1 + seq![SEP] =~= s1.push(SEP));
    lemma_segments_plain(s1 + seq![SEP], s2);
    assert(segments(s1 + seq![SEP] + s2) =~= seq![s1, s2]);
    lemma_segments_sep(s1 + seq![SEP] + s2);
    assert(s1 + seq![SEP] + s2 + seq![SEP] =~= (s1 + seq![SEP] + s2).push(SEP));
    lemma_segments_plain(s1 + seq![SEP] + s2 + seq![SEP], s3);
    assert(segments(s1 + seq![SEP] + s2 + seq![SEP] + s3) =~= seq![s1, s2, s3]);
}

/// A structurally valid token whose last segment is not the signature of its first two
/// is refused for its signature, at any time.
pub proof fn lemma_corrupted_signature(
    s1: Seq<u8>,
    s2: Seq<u8>,
    s3: Seq<u8>,
    key: Seq<u8>,
    pepper: Seq<u8>,
    now: int,
)
    requires
        plain(s1),
        plain(s2),
        plain(s3),
        parse_spec(s1 + seq![SEP] + s2 + seq![SEP] + s3) is Ok,
        s3 != signature_of(s1, s2, key, pepper),
    ensures
        token_check(s1 + seq![SEP] + s2 + seq![SEP] + s3, key, pepper, now) == Err::<(), Error>(
            Error::SignatureNotMatching,
        ),
{
    lemma_segments_three(s1, s2, s3);
}

/// Cuts `b` at every separator.
pub fn split_segments(b: &[u8]) -> (r: Vec<Vec<u8>>)
    ensures
        r@.len() == segments(b@).len(),
        forall|k: int| 0 <= k < r@.len() ==> #[trigger] r@[k]@ == segments(b@)[k],
{
    let mut done: Vec<Vec<u8>> = Vec::new();
    let mut cur: Vec<u8> = Vec::new();
    let mut i: usize = 0;
    assert(b@.subrange(0, 0) =~= Seq::<u8>::empty());
    while i < b.len()
        invariant
            i <= b@.len(),
            segments(b@.subrange(0, i as int)) =~= Seq::new(done@.len(), |k: int| done@[k]@)
                + seq![cur@],
        decreases b@.len() - i,
    {
        let c = b[i];
        let ghost prev = b@.subrange(0, i as int);
        assert(b@.subrange(0, i + 1).drop_last() =~= prev);
        assert(b@.subrange(0, i + 1).last() == c);
        proof {
            lemma_segments_nonempty(prev);
        }
        if c == SEP {
            done.push(cur);
            cur = Vec::new();
        } else {
            cur.push(c);
        }
        i = i + 1;
        assert(segments(b@.subrange(0, i as int)) =~= Seq::new(done@.len(), |k: int| done@[k]@)
            + seq![cur@]);
    }
    assert(b@.subrange(0, b@.len() as int) =~= b@);
    done.push(cur);
    assert forall|k: int| 0 <= k < done@.len() implies #[trigger] done@[k]@ == segments(b@)[k] by {}
    done
}

/// The signature segment for two segments.
fn sign_segments(s1: &[u8], s2: &[u8], key: &[u8], pepper: &[u8]) -> (r: Vec<u8>)
    ensures
        r@ == signature_of(s1@, s2@, key@, pepper@),
        r@.len() > 0,
        plain(r@),
        forall|i: int| 0 <= i < r@.len() ==> is_b64u_byte(#[trigger] r@[i]),
{
    let mut msg: Vec<u8> = Vec::new();
    append_bytes(&mut msg, s1);
    msg.push(SEP);
    append_bytes(&mut msg, s2);
    msg.push(SEP);
    append_bytes(&mut msg, pepper);
    assert(msg@ =~= sign_msg(s1@, s2@, pepper@));
    let tag = hmac_sha512(key, msg.as_slice());
    let r = b64u_encode(tag.as_slice());
    assert forall|i: int| 0 <= i < r@.len() implies #[trigger] r@[i] != SEP by {
        assert(is_b64u_byte(r@[i]));
    }
    r
}

/// Reads a token's text: its three segments, the identifier and the expiration.
/// Cheap structural checks come first; the signature is kept as it stands.
pub fn parse_token(text: &str) -> (r: Result<Token, Error>)
    ensures
        match parse_spec(text.spec_bytes()) {
            Err(e) => r == Err::<Token, Error>(e),
            Ok((ib, t)) => r matches Ok(tok) && tok.ident@ == decode_utf8(ib) && encode_utf8(
                tok.ident@,
            ) == ib && tok.exp == t && tok.sign_b64u@ == segments(text.spec_bytes())[2],
        },
{
    let b = text.as_bytes();
    let segs = split_segments(b);
    if segs.len() != 3 || segs[0].len() == 0 || segs[1].len() == 0 || segs[2].len() == 0 {
        return Err(Error::InvalidFormat);
    }
    let ib = match b64u_decode(segs[0].as_slice()) {
        Some(v) => v,
        None => {
            return Err(Error::CannotDecodeIdent);
        },
    };
    let ghost ibv = ib@;
    let ident = match utf8_string(ib) {
        Some(s) => s,
        None => {
            return Err(Error::CannotDecodeIdent);
        },
    };
    let eb = match b64u_decode(segs[1].as_slice()) {
        Some(v) => v,
        None => {
            return Err(Error::CannotDecodeExp);
        },
    };
    let exp_text = match utf8_string(eb) {
        Some(s) => s,
        None => {
            return Err(Error::CannotDecodeExp);
        },
    };
    let exp = match rfc3339_parse(exp_text.as_str()) {
        Some(t) => t,
        None => {
            return Err(Error::ExpNotIso);
        },
    };
    let sign_b64u = copy_range(segs[2].as_slice(), 0, segs[2].len());
    proof {
        decode_utf8_encode_utf8(ibv);
    }
    Ok(Token { ident, exp, sign_b64u })
}

/// Checks a token's text at time `now`: its structure, then its signature, recomputed
/// over its first two segments and the pepper and compared without stopping at the
/// first difference, then its expiration.
pub fn validate_token_at(text: &str, key: &[u8], pepper: &[u8], now: i64) -> (r: Result<(), Error>)
    ensures
        r == token_check(text.spec_bytes(), key@, pepper@, now as int),
{
    let tok = parse_token(text)?;
    let segs = split_segments(text.as_bytes());
    let fresh = sign_segments(segs[0].as_slice(), segs[1].as_slice(), key, pepper);
    if !constant_time_eq(fresh.as_slice(), tok.sign_b64u.as_slice()) {
        return Err(Error::SignatureNotMatching);
    }
    if now > tok.exp {
        return Err(Error::Expired);
    }
    Ok(())
}

/// A text of no characters has no bytes.
proof fn lemma_encode_utf8_empty(c: Seq<char>)
    ensures
        encode_utf8(c).len() == 0 ==> c.len() == 0,
{
    if encode_utf8(c).len() == 0 {
        encode_utf8_decode_utf8(c);
        assert(encode_utf8(c) =~= Seq::<u8>::empty());
    }
}

/// Makes the token for `ident` at time `now`, expiring `ttl` seconds later.
///
/// For a non-empty identifier, parsing the token gives back the identifier and the
/// expiration, and the token is accepted at every time up to the expiration and
/// refused as expired after it, however often it is checked.
pub fn generate_token_at(ident: &str, now: i64, ttl: i64, key: &[u8], pepper: &[u8]) -> (r: Result<
    String,
    Error,
>)
    ensures
        !(MIN_TIMESTAMP <= now + ttl <= MAX_TIMESTAMP) ==> r == Err::<String, Error>(
            Error::ExpOutOfRange,
        ),
        MIN_TIMESTAMP <= now + ttl <= MAX_TIMESTAMP ==> (r matches Ok(s) && encode_utf8(s@)
            == token_bytes(ident.spec_bytes(), now + ttl, key@, pepper@) && s@ == ascii_text(
            encode_utf8(s@),
        )),
        MIN_TIMESTAMP <= now + ttl <= MAX_TIMESTAMP && ident@.len() > 0 ==> (r matches Ok(s)
            && parse_spec(encode_utf8(s@)) == Ok::<(Seq<u8>, i64), Error>(
            (ident.spec_bytes(), (now + ttl) as i64),
        ) && forall|t: int|
            #[trigger] token_check(encode_utf8(s@), key@, pepper@, t) == if t > now + ttl {
                Err::<(), Error>(Error::Expired)
            } else {
                Ok(())
            }),
{
    let e: i128 = now as i128 + ttl as i128;
    if e < MIN_TIMESTAMP as i128 || e > MAX_TIMESTAMP as i128 {
        return Err(Error::ExpOutOfRange);
    }
    let exp = e as i64;
    let exp_text = rfc3339_format(exp);
    let ib = ident.as_bytes();
    let eb = exp_text.as_str().as_bytes();
    let s1 = b64u_encode(ib);
    let s2 = b64u_encode(eb);
    let s3 = sign_segments(s1.as_slice(), s2.as_slice(), key, pepper);
    let mut b: Vec<u8> = Vec::new();
    append_bytes(&mut b, s1.as_slice());
    b.push(SEP);
    append_bytes(&mut b, s2.as_slice());
    b.push(SEP);
    append_bytes(&mut b, s3.as_slice());
    let ghost bv = b@;
    proof {
        assert(bv =~= s1@ + seq![SEP] + s2@ + seq![SEP] + s3@);
        assert(bv == token_bytes(ident.spec_bytes(), exp as int, key@, pepper@));
        assert forall|i: int| 0 <= i < s1@.len() implies #[trigger] s1@[i] != SEP by {
            assert(is_b64u_byte(s1@[i]));
        }
        assert forall|i: int| 0 <= i < s2@.len() implies #[trigger] s2@[i] != SEP by {
            assert(is_b64u_byte(s2@[i]));
        }
        assert forall|i: int| 0 <= i < bv.len() implies #[trigger] bv[i] < 0x80u8 by {
            if i < s1@.len() {
                assert(is_b64u_byte(s1@[i]));
            } else if s1@.len() < i < s1@.len() + 1 + s2@.len() {
                assert(is_b64u_byte(s2@[i - s1@.len() - 1]));
            } else if i > s1@.len() + 1 + s2@.len() {
                assert(is_b64u_byte(s3@[i - s1@.len() - 2 - s2@.len()]));
            }
        }
        lemma_ascii_utf8(bv);
        lemma_segments_three(s1@, s2@, s3@);
        assert(segments(bv) == seq![s1@, s2@, s3@]);
        encode_utf8_valid_utf8(ident@);
        encode_utf8_valid_utf8(exp_text@);
        encode_utf8_decode_utf8(exp_text@);
        lemma_encode_utf8_empty(ident@);
        lemma_encode_utf8_empty(exp_text@);
    }
    match utf8_string(b) {
        Some(s) => Ok(s),
        None => Err(Error::InvalidFormat),
    }
}

/// Makes the token for `ident`, expiring `ttl` seconds from the clock's reading.
pub fn generate_token(ident: &str, ttl: i64, key: &[u8], pepper: &[u8]) -> (r: Result<
    String,
    Error,
>)
    ensures
        r matches Ok(s) ==> exists|now: i64|
            MIN_TIMESTAMP <= now + ttl <= MAX_TIMESTAMP && #[trigger] token_bytes(
                ident.spec_bytes(),
                now + ttl,
                key@,
                pepper@,
            ) == encode_utf8(s@),
        r is Err ==> r == Err::<String, Error>(Error::ExpOutOfRange),
{
    let now = now_utc_secs();
    generate_token_at(ident, now, ttl, key, pepper)
}

/// Checks a token's text against the clock's reading.
pub fn validate_token(text: &str, key: &[u8], pepper: &[u8]) -> (r: Result<(), Error>)
    ensures
        exists|now: i64| r == #[trigger] token_check(text.spec_bytes(), key@, pepper@, now as int),
{
    let now = now_utc_secs();
    validate_token_at(text, key, pepper, now)
}

} // verus!
